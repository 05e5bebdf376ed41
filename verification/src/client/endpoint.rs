//! Finding endpoints and services in a manifest, and reading model lists.

use crate::error;
use crate::error::{Error, ProtocolError};
use crate::json;
use crate::json::JsonValue;
use crate::protocol::manifest::{EndpointConfig, ProtocolManifest, ServiceConfig};
use crate::table::Table;
use crate::text;
use vstd::prelude::*;

verus! {

/// The endpoint for an operation; chat may also stand under `chat_openai`.
pub open spec fn endpoint_for(endpoints: Option<Map<Seq<char>, EndpointConfig>>, name: Seq<char>) -> Option<
    EndpointConfig,
> {
    match endpoints {
        None => None,
        Some(m) => if m.dom().contains(name) {
            Some(m[name])
        } else if name == "chat"@ && m.dom().contains("chat_openai"@) {
            Some(m["chat_openai"@])
        } else {
            None
        },
    }
}

/// The view of an optional table.
pub open spec fn opt_table<T>(t: Option<Table<T>>) -> Option<Map<Seq<char>, T>> {
    match t {
        Some(x) => Some(x@),
        None => None,
    }
}

/// The view of an optional reference to a table.
pub open spec fn opt_table_ref<T>(t: Option<&Table<T>>) -> Option<Map<Seq<char>, T>> {
    match t {
        Some(x) => Some(x@),
        None => None,
    }
}

/// The reference points to the wanted value.
pub open spec fn points_to<T>(r: Option<&T>, want: Option<T>) -> bool {
    match (r, want) {
        (Some(a), Some(b)) => *a == b,
        (None, None) => true,
        _ => false,
    }
}

/// The endpoint for an operation; chat may also stand under `chat_openai`.
pub fn lookup_endpoint<'a>(endpoints: Option<&'a Table<EndpointConfig>>, name: &str) -> (r: Option<
    &'a EndpointConfig,
>)
    ensures
        points_to(r, endpoint_for(opt_table_ref(endpoints), name@)),
{
    match endpoints {
        None => None,
        Some(t) => {
            if let Some(ep) = t.get(name) {
                return Some(ep);
            }
            if text::text_eq(name, "chat") {
                return t.get("chat_openai");
            }
            None
        },
    }
}

/// What is said when an endpoint is missing.
pub open spec fn missing_endpoint(name: Seq<char>) -> error::ErrorView {
    error::ErrorView::Protocol(
        error::ProtocolErrorView::NotFound {
            id: name,
            hint: Some(
                "Expected endpoints.<name> in the provider manifest (common keys: chat, chat_openai)"@,
            ),
        },
    )
}

/// What is said when a service is missing.
pub open spec fn missing_service(name: Seq<char>) -> error::ErrorView {
    error::ErrorView::Protocol(error::ProtocolErrorView::NotFound { id: name, hint: None })
}

/// The endpoint for an operation, or why there is none.
pub fn resolve_endpoint<'a>(manifest: &'a ProtocolManifest, name: &str) -> (r: Result<
    &'a EndpointConfig,
    Error,
>)
    ensures
        match (r, endpoint_for(opt_table(manifest.endpoints), name@)) {
            (Ok(a), Some(b)) => *a == b,
            (Err(e), None) => e@ == missing_endpoint(name@),
            _ => false,
        },
{
    let endpoints = match &manifest.endpoints {
        Some(t) => Some(t),
        None => None,
    };
    match lookup_endpoint(endpoints, name) {
        Some(ep) => Ok(ep),
        None => Err(
            Error::Protocol(
                ProtocolError::NotFound {
                    id: name.to_string(),
                    hint: Some(
                        "Expected endpoints.<name> in the provider manifest (common keys: chat, chat_openai)".to_string(),
                    ),
                },
            ),
        ),
    }
}

/// The service of a manifest.
pub open spec fn service_for(services: Option<Map<Seq<char>, ServiceConfig>>, name: Seq<char>) -> Option<
    ServiceConfig,
> {
    match services {
        None => None,
        Some(m) => if m.dom().contains(name) {
            Some(m[name])
        } else {
            None
        },
    }
}

/// The service with a name, or why there is none.
pub fn resolve_service<'a>(manifest: &'a ProtocolManifest, name: &str) -> (r: Result<
    &'a ServiceConfig,
    Error,
>)
    ensures
        match (r, service_for(opt_table(manifest.services), name@)) {
            (Ok(a), Some(b)) => *a == b,
            (Err(e), None) => e@ == missing_service(name@),
            _ => false,
        },
{
    let found = match &manifest.services {
        Some(t) => t.get(name),
        None => None,
    };
    match found {
        Some(s) => Ok(s),
        None => Err(
            Error::Protocol(ProtocolError::NotFound { id: name.to_string(), hint: None }),
        ),
    }
}

/// The texts under `key` in the first `n` values; values without one are passed over.
pub open spec fn names_in(list: Seq<json::Json>, key: Seq<char>, n: int) -> Seq<Seq<char>>
    decreases n,
{
    if n <= 0 {
        Seq::empty()
    } else {
        let rest = names_in(list, key, n - 1);
        match json::text_in(list[n - 1].field(key)) {
            Some(s) => rest.push(s),
            None => rest,
        }
    }
}

/// The texts under `key` in the elements of a value; none where it is no array.
pub open spec fn names_of(v: json::Json, key: Seq<char>) -> Seq<Seq<char>> {
    match v {
        json::Json::Array(list) => names_in(list, key, list.len() as int),
        _ => Seq::empty(),
    }
}

/// The models in a response: the ids under `data`, else the names under `models`.
pub open spec fn listed_models(response: json::Json) -> Seq<Seq<char>> {
    match response.field("data"@) {
        Some(data) => names_of(data, "id"@),
        None => match response.field("models"@) {
            Some(models) => names_of(models, "name"@),
            None => Seq::empty(),
        },
    }
}

fn collect_names(v: &JsonValue, key: &str) -> (r: Vec<String>)
    ensures
        text::texts(r@) == names_of(v@, key@),
{
    let mut out: Vec<String> = Vec::new();
    assert(text::texts(out@) =~= Seq::empty());
    if let Some(list) = v.as_array() {
        let ghost views = json::array_view(list@);
        proof {
            json::lemma_array_view(list@);
        }
        let mut i: usize = 0;
        while i < list.len()
            invariant
                i <= list@.len(),
                views == json::array_view(list@),
                text::texts(out@) == names_in(views, key@, i as int),
            decreases list@.len() - i,
        {
            proof {
                json::lemma_array_view(list@);
            }
            assert(views[i as int] == list@[i as int]@);
            if let Some(x) = list[i].get(key) {
                if let Some(s) = x.as_str() {
                    let ghost o0 = text::texts(out@);
                    out.push(s.to_string());
                    assert(text::texts(out@) =~= o0.push(s@));
                }
            }
            i += 1;
        }
    }
    out
}

/// The models that a provider's list names.
pub fn models_from_response(response: &JsonValue) -> (r: Vec<String>)
    ensures
        text::texts(r@) == listed_models(response@),
{
    match response.get("data") {
        Some(data) => collect_names(data, "id"),
        None => match response.get("models") {
            Some(models) => collect_names(models, "name"),
            None => {
                let out: Vec<String> = Vec::new();
                assert(text::texts(out@) =~= Seq::empty());
                out
            },
        },
    }
}

/// The endpoint of an operation's own name counts; only chat may stand under
/// another.
pub proof fn own_endpoint_counts_first(m: Map<Seq<char>, EndpointConfig>, name: Seq<char>)
    ensures
        m.dom().contains(name) ==> endpoint_for(Some(m), name) == Some(m[name]),
        !m.dom().contains(name) && name != "chat"@ ==> endpoint_for(Some(m), name) is None,
        !m.dom().contains("chat"@) && m.dom().contains("chat_openai"@) ==> endpoint_for(
            Some(m),
            "chat"@,
        ) == Some(m["chat_openai"@]),
        !m.dom().contains("chat"@) && !m.dom().contains("chat_openai"@) ==> endpoint_for(
            Some(m),
            "chat"@,
        ) is None,
        endpoint_for(None, name) is None,
{
}

/// A service goes by its own name.
pub proof fn services_go_by_name(m: Map<Seq<char>, ServiceConfig>, name: Seq<char>)
    ensures
        m.dom().contains(name) ==> service_for(Some(m), name) == Some(m[name]),
        !m.dom().contains(name) ==> service_for(Some(m), name) is None,
        service_for(None, name) is None,
{
}

/// Every model of a list with an id is named, in the list's order.
pub proof fn listed_models_are_named_in_order(
    response: json::Json,
    list: Seq<json::Json>,
    k: int,
)
    requires
        0 <= k < list.len(),
        ({
            ||| response.field("data"@) == Some(json::Json::Array(list)) && forall|i: int|
                0 <= i < list.len() ==> ((#[trigger] list[i]).field("id"@) matches Some(j) && (j
                    is Str))
            ||| response.field("data"@) is None && response.field("models"@) == Some(
                json::Json::Array(list),
            ) && forall|i: int|
                0 <= i < list.len() ==> ((#[trigger] list[i]).field("name"@) matches Some(j) && (j
                    is Str))
        }),
    ensures
        listed_models(response).len() == list.len(),
        list[k].field(
            if response.field("data"@) is Some {
                "id"@
            } else {
                "name"@
            },
        ) == Some(json::Json::Str(listed_models(response)[k])),
{
    let key = if response.field("data"@) is Some {
        "id"@
    } else {
        "name"@
    };
    lemma_names_in_order(list, key, list.len() as int, k);
}

proof fn lemma_names_in_order(list: Seq<json::Json>, key: Seq<char>, n: int, k: int)
    requires
        0 <= k < n <= list.len(),
        forall|i: int|
            0 <= i < list.len() ==> ((#[trigger] list[i]).field(key) matches Some(j) && (j is Str)),
    ensures
        names_in(list, key, n).len() == n,
        list[k].field(key) == Some(json::Json::Str(names_in(list, key, n)[k])),
    decreases n,
{
    assert(list[n - 1].field(key) matches Some(j) && (j is Str));
    if n > 1 {
        lemma_names_in_order(list, key, n - 1, if k < n - 1 { k } else { 0 });
    } else {
        assert(names_in(list, key, 0).len() == 0);
    }
}

/// An entry without a name is passed over.
pub proof fn nameless_entries_are_passed_over(list: Seq<json::Json>, key: Seq<char>, n: int)
    requires
        0 <= n < list.len(),
        !(list[n].field(key) matches Some(j) && (j is Str)),
    ensures
        names_in(list, key, n + 1) == names_in(list, key, n),
{
}

/// A response with neither list names no model.
pub proof fn nothing_listed_names_nothing(response: json::Json)
    requires
        response.field("data"@) is None,
        response.field("models"@) is None,
    ensures
        listed_models(response).len() == 0,
{
}

/// An endpoint is found under its name, and what is missing is told by its name.
pub proof fn missing_endpoints_are_named(
    manifest: &ProtocolManifest,
    name: &str,
    r: Result<&EndpointConfig, Error>,
    s: Result<&ServiceConfig, Error>,
)
    requires
        call_ensures(resolve_endpoint, (manifest, name), r),
        call_ensures(resolve_service, (manifest, name), s),
    ensures
        manifest.endpoints matches Some(t) && t@.dom().contains(name@) ==> (r matches Ok(e) && *e
            == manifest.endpoints->0@[name@]),
        r matches Err(e) ==> (e@ matches error::ErrorView::Protocol(
            error::ProtocolErrorView::NotFound { id, .. },
        ) && id == name@),
        manifest.services matches Some(t) && t@.dom().contains(name@) ==> (s matches Ok(e) && *e
            == manifest.services->0@[name@]),
        s matches Err(e) ==> (e@ matches error::ErrorView::Protocol(
            error::ProtocolErrorView::NotFound { id, .. },
        ) && id == name@),
{
}

} // verus!
