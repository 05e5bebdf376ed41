//! What the module tells a host about itself.

use crate::json;
use crate::json::JsonValue;
use crate::text;
use crate::wasm::state::SNAPSHOT_FORMAT_VERSION;
use crate::wasm::AILIB_ABI_VERSION;
use vstd::prelude::*;

verus! {

broadcast use vstd::string::group_string_axioms;

/// The version of the interface.
pub fn ailib_abi_version() -> (r: u32)
    ensures
        r == AILIB_ABI_VERSION,
{
    AILIB_ABI_VERSION
}

/// The operations that the dispatcher knows.
pub open spec fn operations() -> Seq<Seq<char>> {
    seq![
        "abi_version"@,
        "capabilities"@,
        "load_manifest"@,
        "check_capability"@,
        "build_request"@,
        "parse_response"@,
        "classify_error"@,
        "extract_usage"@,
        "resolve_credential"@,
        "snapshot_state"@,
        "restore_state"@,
        "metrics"@,
    ]
}

/// A JSON number.
pub open spec fn number_json(n: u64) -> json::Json {
    json::Json::Number(json::JsonNumber::Unsigned(n))
}

/// A JSON object without entries.
pub open spec fn no_entries() -> Map<Seq<char>, json::Json> {
    Map::empty()
}

/// How memory is handed over.
pub open spec fn memory_json() -> json::Json {
    json::Json::Object(
        no_entries().insert("ownership_transfer"@, json::Json::Bool(true)).insert(
            "free"@,
            json::Json::Str("ailib_free"@),
        ).insert("consume"@, json::Json::Str("ailib_out_consume"@)).insert(
            "arena_reset"@,
            json::Json::Str("ailib_arena_reset"@),
        ),
    )
}

/// What a host can rely on.
pub open spec fn features_json() -> json::Json {
    json::Json::Object(
        no_entries().insert("structured_input"@, json::Json::Bool(true)).insert(
            "additive_ctx"@,
            json::Json::Bool(true),
        ).insert("state_migration"@, json::Json::Bool(true)).insert(
            "host_supplied_credentials"@,
            json::Json::Bool(true),
        ),
    )
}

/// What the module says of itself.
pub open spec fn capabilities_value() -> json::Json {
    json::Json::Object(
        no_entries().insert("version"@, number_json(AILIB_ABI_VERSION as u64)).insert(
            "snapshot_format_version"@,
            number_json(SNAPSHOT_FORMAT_VERSION as u64),
        ).insert(
            "ops"@,
            json::Json::Array(
                Seq::new(operations().len(), |i: int| json::Json::Str(operations()[i])),
            ),
        ).insert("memory"@, memory_json()).insert("features"@, features_json()),
    )
}

fn operation_list() -> (r: Vec<JsonValue>)
    ensures
        json::array_view(r@) == Seq::new(
            operations().len(),
            |i: int| json::Json::Str(operations()[i]),
        ),
{
    let ops = vec![
        JsonValue::string("abi_version"),
        JsonValue::string("capabilities"),
        JsonValue::string("load_manifest"),
        JsonValue::string("check_capability"),
        JsonValue::string("build_request"),
        JsonValue::string("parse_response"),
        JsonValue::string("classify_error"),
        JsonValue::string("extract_usage"),
        JsonValue::string("resolve_credential"),
        JsonValue::string("snapshot_state"),
        JsonValue::string("restore_state"),
        JsonValue::string("metrics"),
    ];
    proof {
        json::lemma_array_view(ops@);
        let want = Seq::new(operations().len(), |i: int| json::Json::Str(operations()[i]));
        assert forall|i: int| 0 <= i < 12 implies #[trigger] json::array_view(ops@)[i]
            == want[i] by {
            assert(json::array_view(ops@)[i] == ops@[i]@);
            assert(want[i] == json::Json::Str(operations()[i]));
            assert(i == 0 || i == 1 || i == 2 || i == 3 || i == 4 || i == 5 || i == 6 || i == 7
                || i == 8 || i == 9 || i == 10 || i == 11);
        }
        assert(json::array_view(ops@) =~= want);
    }
    ops
}

/// What the module says of itself, as JSON text in bytes.
pub fn capabilities_json() -> (r: Vec<u8>)
    ensures
        r@ == vstd::utf8::encode_utf8(json::json_text(capabilities_value())),
{
    let memory = JsonValue::object().with("ownership_transfer", JsonValue::Bool(true)).with(
        "free",
        JsonValue::string("ailib_free"),
    ).with("consume", JsonValue::string("ailib_out_consume")).with(
        "arena_reset",
        JsonValue::string("ailib_arena_reset"),
    );
    let features = JsonValue::object().with("structured_input", JsonValue::Bool(true)).with(
        "additive_ctx",
        JsonValue::Bool(true),
    ).with("state_migration", JsonValue::Bool(true)).with(
        "host_supplied_credentials",
        JsonValue::Bool(true),
    );
    let v = JsonValue::object().with("version", JsonValue::number(AILIB_ABI_VERSION as u64)).with(
        "snapshot_format_version",
        JsonValue::number(SNAPSHOT_FORMAT_VERSION as u64),
    ).with("ops", JsonValue::Array(operation_list())).with("memory", memory).with(
        "features",
        features,
    );
    text::bytes_of(json::render(&v).as_str())
}

/// The bytes in which the module describes itself.
pub fn ailib_capabilities_ptr() -> (r: Vec<u8>)
    ensures
        r@ == vstd::utf8::encode_utf8(json::json_text(capabilities_value())),
{
    capabilities_json()
}

/// How many bytes the module describes itself in.
pub fn ailib_capabilities_len() -> (r: usize)
    ensures
        r == vstd::utf8::encode_utf8(json::json_text(capabilities_value())).len(),
{
    capabilities_json().len()
}

} // verus!
