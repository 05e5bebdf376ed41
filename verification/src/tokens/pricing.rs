//! Which price applies to a model.

use crate::text;
use vstd::prelude::*;

verus! {

broadcast use vstd::string::group_string_axioms;

/// The first of the keys, from the `k`th on, that is the text itself.
pub open spec fn same_from(keys: Seq<Seq<char>>, name: Seq<char>, k: int) -> Option<int>
    decreases keys.len() - k,
{
    if 0 <= k < keys.len() {
        if keys[k] == name {
            Some(k)
        } else {
            same_from(keys, name, k + 1)
        }
    } else {
        None
    }
}

/// The first of the keys, from the `k`th on, that is part of the text.
pub open spec fn part_from(keys: Seq<Seq<char>>, name: Seq<char>, k: int) -> Option<int>
    decreases keys.len() - k,
{
    if 0 <= k < keys.len() {
        if text::has_part(name, keys[k]) {
            Some(k)
        } else {
            part_from(keys, name, k + 1)
        }
    } else {
        None
    }
}

/// The texts in lower case.
pub open spec fn lowered(keys: Seq<Seq<char>>) -> Seq<Seq<char>> {
    Seq::new(keys.len(), |i: int| text::lowercase_text(keys[i]))
}

/// The key whose price applies to a model: the model's name itself, else the
/// first key that is part of it, whatever the case.
pub open spec fn price_key(keys: Seq<Seq<char>>, model: Seq<char>) -> Option<int> {
    match same_from(keys, model, 0) {
        Some(i) => Some(i),
        None => part_from(lowered(keys), text::lowercase_text(model), 0),
    }
}

/// The first of the keys that is the text itself.
pub fn find_same(keys: &Vec<String>, name: &str) -> (r: Option<usize>)
    ensures
        (match r {
            Some(i) => Some(i as int),
            None => None,
        }) == same_from(text::texts(keys@), name@, 0),
{
    let ghost all = text::texts(keys@);
    let mut i: usize = 0;
    while i < keys.len()
        invariant
            i <= keys@.len(),
            all == text::texts(keys@),
            same_from(all, name@, 0) == same_from(all, name@, i as int),
        decreases keys@.len() - i,
    {
        assert(all[i as int] == keys@[i as int]@);
        if text::text_eq(keys[i].as_str(), name) {
            return Some(i);
        }
        i += 1;
    }
    None
}

/// The first of the keys that is part of the text.
pub fn find_part(keys: &Vec<String>, name: &str) -> (r: Option<usize>)
    ensures
        (match r {
            Some(i) => Some(i as int),
            None => None,
        }) == part_from(text::texts(keys@), name@, 0),
{
    let ghost all = text::texts(keys@);
    let mut i: usize = 0;
    while i < keys.len()
        invariant
            i <= keys@.len(),
            all == text::texts(keys@),
            part_from(all, name@, 0) == part_from(all, name@, i as int),
        decreases keys@.len() - i,
    {
        assert(all[i as int] == keys@[i as int]@);
        if text::contains(name, keys[i].as_str()) {
            return Some(i);
        }
        i += 1;
    }
    None
}

/// The place of the first of the names, all in lower case, that is part of a
/// model's name in any case. A name that holds another goes before it.
pub fn for_model(names: &Vec<String>, model: &str) -> (r: Option<usize>)
    ensures
        (match r {
            Some(i) => Some(i as int),
            None => None,
        }) == part_from(text::texts(names@), text::lowercase_text(model@), 0),
{
    find_part(names, text::to_lowercase(model).as_str())
}

/// The names of the models with a sample price, the smaller of two whose names
/// share a beginning first.
pub open spec fn sampled_names() -> Seq<Seq<char>> {
    seq!["gpt-4o-mini"@, "gpt-4o"@]
}

/// The names of the models with a sample price, in the order they are tried.
/// A caller with prices of more models hands all their names to `for_model`.
pub fn sample_names() -> (r: Vec<String>)
    ensures
        text::texts(r@) == sampled_names(),
{
    let mut out: Vec<String> = Vec::new();
    out.push("gpt-4o-mini".to_string());
    out.push("gpt-4o".to_string());
    assert(text::texts(out@) =~= sampled_names());
    out
}

/// The place, among the sampled names, of the one whose price applies to a
/// model: the first that is part of the model's name in any case.
pub fn sample_for_model(model: &str) -> (r: Option<usize>)
    ensures
        (match r {
            Some(i) => Some(i as int),
            None => None,
        }) == part_from(sampled_names(), text::lowercase_text(model@), 0),
{
    for_model(&sample_names(), model)
}

/// The place of the key whose price applies to a model.
pub fn from_table(keys: &Vec<String>, model: &str) -> (r: Option<usize>)
    ensures
        (match r {
            Some(i) => Some(i as int),
            None => None,
        }) == price_key(text::texts(keys@), model@),
{
    if let Some(i) = find_same(keys, model) {
        return Some(i);
    }
    let mut lower: Vec<String> = Vec::new();
    let mut i: usize = 0;
    while i < keys.len()
        invariant
            i <= keys@.len(),
            lower@.len() == i,
            forall|k: int| 0 <= k < i ==> #[trigger] lower@[k]@ == text::lowercase_text(keys@[k]@),
        decreases keys@.len() - i,
    {
        lower.push(text::to_lowercase(keys[i].as_str()));
        i += 1;
    }
    assert(text::texts(lower@) =~= lowered(text::texts(keys@)));
    find_part(&lower, text::to_lowercase(model).as_str())
}

/// The first key that is the name itself counts.
pub proof fn first_same_name_counts(keys: Seq<Seq<char>>, name: Seq<char>, from: int, k: int)
    requires
        0 <= from <= k <= keys.len(),
        forall|j: int| from <= j < k ==> #[trigger] keys[j] != name,
        k < keys.len() ==> keys[k] == name,
    ensures
        same_from(keys, name, from) == (if k < keys.len() {
            Some(k)
        } else {
            None
        }),
    decreases k - from,
{
    if from < k {
        assert(keys[from] != name);
        first_same_name_counts(keys, name, from + 1, k);
    }
}

/// The first key that stands somewhere in the name counts.
pub proof fn first_part_counts(keys: Seq<Seq<char>>, name: Seq<char>, from: int, k: int)
    requires
        0 <= from <= k <= keys.len(),
        forall|j: int| from <= j < k ==> !text::has_part(name, #[trigger] keys[j]),
        k < keys.len() ==> text::has_part(name, keys[k]),
    ensures
        part_from(keys, name, from) == (if k < keys.len() {
            Some(k)
        } else {
            None
        }),
    decreases k - from,
{
    if from < k {
        assert(!text::has_part(name, keys[from]));
        first_part_counts(keys, name, from + 1, k);
    }
}

/// The price under the model's own name counts before every other.
pub proof fn own_price_counts_first(keys: Seq<Seq<char>>, model: Seq<char>, k: int)
    requires
        0 <= k < keys.len(),
        keys[k] == model,
        forall|j: int| 0 <= j < k ==> #[trigger] keys[j] != model,
    ensures
        price_key(keys, model) == Some(k),
{
    first_same_name_counts(keys, model, 0, k);
}

/// Without a price of its own a model has the first whose key stands in its
/// name, whatever the case.
pub proof fn key_within_the_name_counts_next(keys: Seq<Seq<char>>, model: Seq<char>, k: int)
    requires
        forall|j: int| 0 <= j < keys.len() ==> #[trigger] keys[j] != model,
        0 <= k <= keys.len(),
        forall|j: int|
            0 <= j < k ==> !text::has_part(
                text::lowercase_text(model),
                text::lowercase_text(#[trigger] keys[j]),
            ),
        k < keys.len() ==> text::has_part(
            text::lowercase_text(model),
            text::lowercase_text(keys[k]),
        ),
    ensures
        price_key(keys, model) == (if k < keys.len() {
            Some(k)
        } else {
            None
        }),
{
    first_same_name_counts(keys, model, 0, keys.len() as int);
    let low = lowered(keys);
    assert forall|j: int| 0 <= j < k implies !text::has_part(
        text::lowercase_text(model),
        #[trigger] low[j],
    ) by {
        assert(low[j] == text::lowercase_text(keys[j]));
    }
    first_part_counts(low, text::lowercase_text(model), 0, k);
}

/// The smaller of the two sampled models is looked for first, so that its name
/// is not taken for the other's.
pub proof fn longer_sample_name_comes_first()
    ensures
        sampled_names()[0] == "gpt-4o-mini"@,
        sampled_names()[1] == "gpt-4o"@,
        text::has_part(sampled_names()[0], sampled_names()[1]),
{
    reveal_strlit("gpt-4o-mini");
    reveal_strlit("gpt-4o");
    let a = "gpt-4o-mini"@;
    let b = "gpt-4o"@;
    assert(a.subrange(0, 6) =~= b);
    assert(text::occurs_at(a, b, 0));
}

} // verus!
