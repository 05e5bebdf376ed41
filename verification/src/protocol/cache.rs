//! Manifests by model, the least recently used dropped first.

use crate::protocol::manifest::ProtocolManifest;
use std::sync::Arc;
use vstd::prelude::*;

verus! {

/// `lru::LruCache`, carried through as it is.
#[verifier::external_type_specification]
#[verifier::external_body]
#[verifier::reject_recursive_types(K)]
#[verifier::reject_recursive_types(V)]
#[verifier::reject_recursive_types(S)]
pub struct ExLruCache<K, V, S>(lru::LruCache<K, V, S>);

/// The hasher that `lru` uses by default, carried through as it is.
#[verifier::external_type_specification]
#[verifier::external_body]
pub struct ExLruHasher(lru::DefaultHasher);

/// What an `lru::LruCache` holds, the most recently used first.
pub uninterp spec fn cached(c: lru::LruCache<String, Arc<ProtocolManifest>>) -> Seq<
    (Seq<char>, Arc<ProtocolManifest>),
>;

/// How many entries an `lru::LruCache` was made for.
pub uninterp spec fn cache_limit(c: lru::LruCache<String, Arc<ProtocolManifest>>) -> nat;

/// Where the key stands, the first place counting.
pub open spec fn place_of(s: Seq<(Seq<char>, Arc<ProtocolManifest>)>, key: Seq<char>) -> Option<int>
    decreases s.len(),
{
    if s.len() == 0 {
        None
    } else if s[0].0 == key {
        Some(0)
    } else {
        match place_of(s.drop_first(), key) {
            Some(i) => Some(i + 1),
            None => None,
        }
    }
}

/// The entries after one was used: it moves to the front.
pub open spec fn after_use(s: Seq<(Seq<char>, Arc<ProtocolManifest>)>, key: Seq<char>) -> Seq<
    (Seq<char>, Arc<ProtocolManifest>),
> {
    match place_of(s, key) {
        Some(i) => seq![s[i]] + s.remove(i),
        None => s,
    }
}

/// The entries after one was put in: it stands in front, in place of one with
/// its key, or of the last where the cache is full.
pub open spec fn after_put(
    s: Seq<(Seq<char>, Arc<ProtocolManifest>)>,
    key: Seq<char>,
    value: Arc<ProtocolManifest>,
    limit: nat,
) -> Seq<(Seq<char>, Arc<ProtocolManifest>)> {
    match place_of(s, key) {
        Some(i) => seq![(key, value)] + s.remove(i),
        None => if s.len() == limit {
            seq![(key, value)] + s.drop_last()
        } else {
            seq![(key, value)] + s
        },
    }
}

/// `lru::LruCache::new`: an empty cache for `limit` entries.
#[verifier::external_body]
fn cache_new(limit: usize) -> (r: lru::LruCache<String, Arc<ProtocolManifest>>)
    requires
        0 < limit <= 4096,
    ensures
        cached(r) == Seq::<(Seq<char>, Arc<ProtocolManifest>)>::empty(),
        cache_limit(r) == limit,
{
    lru::LruCache::new(std::num::NonZeroUsize::new(limit).unwrap())
}

/// `lru::LruCache::get`: the value under the key, which becomes the most
/// recently used entry.
#[verifier::external_body]
fn cache_get(c: &mut lru::LruCache<String, Arc<ProtocolManifest>>, key: &str) -> (r: Option<
    Arc<ProtocolManifest>,
>)
    ensures
        match (r, place_of(cached(*old(c)), key@)) {
            (Some(v), Some(i)) => v == cached(*old(c))[i].1,
            (None, None) => true,
            _ => false,
        },
        cached(*final(c)) == after_use(cached(*old(c)), key@),
        cache_limit(*final(c)) == cache_limit(*old(c)),
{
    c.get(key).cloned()
}

/// `lru::LruCache::put`: the entry becomes the most recently used one, in
/// place of one with its key, or of the least recently used where the cache is
/// full.
#[verifier::external_body]
fn cache_put(
    c: &mut lru::LruCache<String, Arc<ProtocolManifest>>,
    key: String,
    value: Arc<ProtocolManifest>,
)
    ensures
        cached(*final(c)) == after_put(cached(*old(c)), key@, value, cache_limit(*old(c))),
        cache_limit(*final(c)) == cache_limit(*old(c)),
{
    c.put(key, value);
}

/// `lru::LruCache::clear`: every entry leaves, and the room for them stays.
#[verifier::external_body]
fn cache_clear(c: &mut lru::LruCache<String, Arc<ProtocolManifest>>)
    ensures
        cached(*final(c)) == Seq::<(Seq<char>, Arc<ProtocolManifest>)>::empty(),
        cache_limit(*final(c)) == cache_limit(*old(c)),
{
    c.clear();
}

/// Manifests by model id.
#[derive(Debug)]
pub struct ManifestCache {
    entries: lru::LruCache<String, Arc<ProtocolManifest>>,
}

impl View for ManifestCache {
    type V = Seq<(Seq<char>, Arc<ProtocolManifest>)>;

    closed spec fn view(&self) -> Seq<(Seq<char>, Arc<ProtocolManifest>)> {
        cached(self.entries)
    }
}

/// How many manifests the cache keeps.
pub const CACHE_SIZE: usize = 100;

impl ManifestCache {
    /// No more manifests than there is room for.
    pub closed spec fn well_formed(self) -> bool {
        cache_limit(self.entries) == CACHE_SIZE && self@.len() <= CACHE_SIZE
    }

    /// An empty cache.
    pub fn new() -> (r: Self)
        ensures
            r.well_formed(),
            r@ == Seq::<(Seq<char>, Arc<ProtocolManifest>)>::empty(),
    {
        ManifestCache { entries: cache_new(CACHE_SIZE) }
    }

    /// The manifest of a model, where it is kept.
    pub fn get(&mut self, model: &str) -> (r: Option<Arc<ProtocolManifest>>)
        requires
            old(self).well_formed(),
        ensures
            final(self).well_formed(),
            match (r, place_of(old(self)@, model@)) {
                (Some(v), Some(i)) => v == old(self)@[i].1,
                (None, None) => true,
                _ => false,
            },
            final(self)@ == after_use(old(self)@, model@),
    {
        proof {
            lemma_place(self@, model@);
        }
        cache_get(&mut self.entries, model)
    }

    /// Keeps the manifest of a model.
    pub fn put(&mut self, model: &str, manifest: Arc<ProtocolManifest>)
        requires
            old(self).well_formed(),
        ensures
            final(self).well_formed(),
            final(self)@ == after_put(old(self)@, model@, manifest, CACHE_SIZE as nat),
    {
        proof {
            lemma_place(self@, model@);
        }
        cache_put(&mut self.entries, model.to_string(), manifest);
    }

    /// Forgets every manifest.
    pub fn clear(&mut self)
        requires
            old(self).well_formed(),
        ensures
            final(self).well_formed(),
            final(self)@ == Seq::<(Seq<char>, Arc<ProtocolManifest>)>::empty(),
    {
        cache_clear(&mut self.entries);
    }
}

proof fn lemma_place(s: Seq<(Seq<char>, Arc<ProtocolManifest>)>, key: Seq<char>)
    ensures
        place_of(s, key) matches Some(i) ==> 0 <= i < s.len() && s[i].0 == key,
    decreases s.len(),
{
    if s.len() > 0 && s[0].0 != key {
        lemma_place(s.drop_first(), key);
    }
}

/// A manifest that was put in is found under its key.
pub proof fn put_manifest_is_found(
    s: Seq<(Seq<char>, Arc<ProtocolManifest>)>,
    key: Seq<char>,
    value: Arc<ProtocolManifest>,
    limit: nat,
)
    ensures
        place_of(after_put(s, key, value, limit), key) == Some(0int),
        after_put(s, key, value, limit)[0] == (key, value),
{
}

/// A full cache drops the least recently used manifest and no other.
pub proof fn full_cache_drops_the_last(
    s: Seq<(Seq<char>, Arc<ProtocolManifest>)>,
    key: Seq<char>,
    value: Arc<ProtocolManifest>,
)
    requires
        s.len() > 0,
        place_of(s, key) is None,
    ensures
        after_put(s, key, value, s.len()) == seq![(key, value)] + s.drop_last(),
        after_put(s, key, value, s.len()).len() == s.len(),
{
}

/// A key stands at the first place that holds it.
pub proof fn first_place_counts(s: Seq<(Seq<char>, Arc<ProtocolManifest>)>, key: Seq<char>, i: int)
    requires
        0 <= i < s.len(),
        s[i].0 == key,
        forall|j: int| 0 <= j < i ==> (#[trigger] s[j]).0 != key,
    ensures
        place_of(s, key) == Some(i),
    decreases i,
{
    if i > 0 {
        assert(s[0].0 != key);
        assert forall|j: int| 0 <= j < i - 1 implies (#[trigger] s.drop_first()[j]).0 != key by {
            assert(s.drop_first()[j] == s[j + 1]);
        }
        first_place_counts(s.drop_first(), key, i - 1);
    }
}

/// A key that no entry has stands nowhere.
pub proof fn missing_key_has_no_place(s: Seq<(Seq<char>, Arc<ProtocolManifest>)>, key: Seq<char>)
    requires
        forall|j: int| 0 <= j < s.len() ==> (#[trigger] s[j]).0 != key,
    ensures
        place_of(s, key) is None,
    decreases s.len(),
{
    if s.len() > 0 {
        assert(s[0].0 != key);
        assert forall|j: int| 0 <= j < s.drop_first().len() implies (
        #[trigger] s.drop_first()[j]).0 != key by {
            assert(s.drop_first()[j] == s[j + 1]);
        }
        missing_key_has_no_place(s.drop_first(), key);
    }
}

/// Using an entry puts it in front, and moves those that were before it back by
/// one place; none is lost.
pub proof fn used_entry_moves_to_the_front(
    s: Seq<(Seq<char>, Arc<ProtocolManifest>)>,
    key: Seq<char>,
    i: int,
)
    requires
        place_of(s, key) == Some(i),
    ensures
        0 <= i < s.len(),
        after_use(s, key).len() == s.len(),
        after_use(s, key)[0] == s[i],
        forall|j: int| 0 <= j < i ==> #[trigger] after_use(s, key)[j + 1] == s[j],
        forall|j: int| i < j < s.len() ==> #[trigger] after_use(s, key)[j] == s[j],
{
    lemma_place(s, key);
}

/// Looking for a key that is not there changes nothing.
pub proof fn missed_lookup_changes_nothing(
    s: Seq<(Seq<char>, Arc<ProtocolManifest>)>,
    key: Seq<char>,
)
    requires
        place_of(s, key) is None,
    ensures
        after_use(s, key) == s,
{
}

/// A cache with room keeps every entry where a new one is put in.
pub proof fn room_keeps_every_entry(
    s: Seq<(Seq<char>, Arc<ProtocolManifest>)>,
    key: Seq<char>,
    value: Arc<ProtocolManifest>,
    limit: nat,
    j: int,
)
    requires
        place_of(s, key) is None,
        s.len() < limit,
        0 <= j < s.len(),
    ensures
        after_put(s, key, value, limit).len() == s.len() + 1,
        after_put(s, key, value, limit)[j + 1] == s[j],
{
}

/// An entry put in under a key that is there takes that entry's place; the
/// others stay.
pub proof fn same_key_is_replaced(
    s: Seq<(Seq<char>, Arc<ProtocolManifest>)>,
    key: Seq<char>,
    value: Arc<ProtocolManifest>,
    limit: nat,
    i: int,
    j: int,
)
    requires
        place_of(s, key) == Some(i),
        0 <= j < s.len(),
        j != i,
    ensures
        after_put(s, key, value, limit).len() == s.len(),
        after_put(s, key, value, limit)[if j < i {
            j + 1
        } else {
            j
        }] == s[j],
{
    lemma_place(s, key);
}

} // verus!
