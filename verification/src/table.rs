//! String-keyed tables, seen as mathematical maps.

use crate::text;
use vstd::prelude::*;

verus! {

/// The map that a list of entries stands for: a later entry replaces an
/// earlier one with the same key.
pub open spec fn entries_map<T>(s: Seq<(String, T)>) -> Map<Seq<char>, T>
    decreases s.len(),
{
    if s.len() == 0 {
        Map::empty()
    } else {
        entries_map(s.drop_last()).insert(s.last().0@, s.last().1)
    }
}

/// A table from text to `T`.
#[derive(Debug, Clone)]
pub struct Table<T> {
    pub entries: Vec<(String, T)>,
}

impl<T> View for Table<T> {
    type V = Map<Seq<char>, T>;

    open spec fn view(&self) -> Map<Seq<char>, T> {
        entries_map(self.entries@)
    }
}

impl<T> Table<T> {
    /// A table without entries.
    pub fn new() -> (r: Self)
        ensures
            r@ == Map::<Seq<char>, T>::empty(),
    {
        Table { entries: Vec::new() }
    }

    /// Puts `value` under `key`, in place of what was there.
    pub fn insert(&mut self, key: String, value: T)
        ensures
            final(self)@ == old(self)@.insert(key@, value),
    {
        self.entries.push((key, value));
        assert(self.entries@.drop_last() =~= old(self).entries@);
    }

    /// What stands under `key`.
    pub fn get(&self, key: &str) -> (r: Option<&T>)
        ensures
            match r {
                Some(v) => self@.dom().contains(key@) && *v == self@[key@],
                None => !self@.dom().contains(key@),
            },
    {
        let mut i: usize = self.entries.len();
        assert(self.entries@.take(i as int) =~= self.entries@);
        while i > 0
            invariant
                i <= self.entries@.len(),
                entries_map(self.entries@.take(i as int)).dom().contains(key@)
                    == self@.dom().contains(key@),
                self@.dom().contains(key@) ==> entries_map(self.entries@.take(i as int))[key@]
                    == self@[key@],
            decreases i,
        {
            let ghost upto = self.entries@.take(i as int);
            assert(upto.drop_last() =~= self.entries@.take(i - 1));
            assert(upto.last() == self.entries@[i - 1]);
            let entry = &self.entries[i - 1];
            if text::text_eq(entry.0.as_str(), key) {
                return Some(&entry.1);
            }
            i -= 1;
        }
        None
    }

    /// Whether something stands under `key`.
    pub fn contains_key(&self, key: &str) -> (r: bool)
        ensures
            r == self@.dom().contains(key@),
    {
        self.get(key).is_some()
    }
}

/// What stands under a key is what the last entry with the key holds; entries
/// with other keys do not count.
pub proof fn last_entry_counts<T>(s: Seq<(String, T)>, entry: (String, T), key: Seq<char>)
    ensures
        entry.0@ == key ==> entries_map(s.push(entry)).dom().contains(key) && entries_map(
            s.push(entry),
        )[key] == entry.1,
        entry.0@ != key ==> entries_map(s.push(entry)).dom().contains(key) == entries_map(
            s,
        ).dom().contains(key),
        entry.0@ != key && entries_map(s).dom().contains(key) ==> entries_map(s.push(entry))[key]
            == entries_map(s)[key],
{
    assert(s.push(entry).drop_last() =~= s);
}

} // verus!
