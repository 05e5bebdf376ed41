//! Stable sorting by a key of two numbers and a text, as an order of positions.

use crate::text;
use vstd::prelude::*;

verus! {

/// What items are ordered by: the first number, then the second, then the text.
#[derive(Debug)]
pub struct SortKey {
    pub first: u64,
    pub second: u64,
    pub text: String,
}

/// What a key is.
pub struct KeyView {
    pub first: u64,
    pub second: u64,
    pub text: Seq<char>,
}

impl View for SortKey {
    type V = KeyView;

    open spec fn view(&self) -> KeyView {
        KeyView { first: self.first, second: self.second, text: self.text@ }
    }
}

/// The views of keys, in order.
pub open spec fn key_views(v: Seq<SortKey>) -> Seq<KeyView> {
    Seq::new(v.len(), |i: int| v[i]@)
}

/// `a` comes before `b`.
pub open spec fn key_before(a: KeyView, b: KeyView) -> bool {
    ||| a.first < b.first
    ||| a.first == b.first && a.second < b.second
    ||| a.first == b.first && a.second == b.second && text::text_before(a.text, b.text)
}

/// `order` with position `x` put in after every position whose key does not come later.
pub open spec fn placed_in(order: Seq<usize>, keys: Seq<KeyView>, x: usize) -> Seq<usize>
    decreases order.len(),
{
    if order.len() == 0 {
        seq![x]
    } else if !key_before(keys[x as int], keys[order.last() as int]) {
        order.push(x)
    } else {
        placed_in(order.drop_last(), keys, x).push(order.last())
    }
}

/// The first `n` positions ordered by key; positions with equal keys keep their order.
pub open spec fn order_upto(keys: Seq<KeyView>, n: nat) -> Seq<usize>
    decreases n,
{
    if n == 0 {
        Seq::empty()
    } else {
        placed_in(order_upto(keys, (n - 1) as nat), keys, (n - 1) as usize)
    }
}

/// All positions ordered by key; positions with equal keys keep their order.
pub open spec fn order_of(keys: Seq<KeyView>) -> Seq<usize> {
    order_upto(keys, keys.len())
}

/// The items in the order of their keys.
pub open spec fn sorted_by<T>(items: Seq<T>, keys: Seq<KeyView>) -> Seq<T> {
    Seq::new(order_of(keys).len(), |i: int| items[order_of(keys)[i] as int])
}

/// Position `a` goes before position `b`: its key comes before, or the keys
/// are the same and it stood before.
pub open spec fn goes_before(keys: Seq<KeyView>, a: usize, b: usize) -> bool {
    key_before(keys[a as int], keys[b as int]) || (keys[a as int] == keys[b as int] && a < b)
}

/// `order` holds each of the first `n` positions once, by ascending key, and
/// by ascending position among equal keys.
pub open spec fn is_stable_order(order: Seq<usize>, keys: Seq<KeyView>, n: nat) -> bool {
    &&& order.len() == n
    &&& forall|i: int| 0 <= i < order.len() ==> (#[trigger] order[i]) < n
    &&& forall|i: int, j: int|
        0 <= i < j < order.len() ==> goes_before(keys, #[trigger] order[i], #[trigger] order[j])
    &&& forall|x: int| 0 <= x < n ==> #[trigger] holds(order, x)
}

/// Position `x` stands somewhere in `order`.
pub open spec fn holds(order: Seq<usize>, x: int) -> bool {
    exists|i: int| 0 <= i < order.len() && #[trigger] order[i] == x
}

proof fn lemma_text_trichotomy(a: Seq<char>, b: Seq<char>)
    ensures
        text::text_before(a, b) || text::text_before(b, a) || a == b,
        !(text::text_before(a, b) && text::text_before(b, a)),
        !text::text_before(a, a),
    decreases a.len() + b.len(),
{
    if a.len() > 0 {
        lemma_text_irreflexive(a);
    }
    if a.len() == 0 && b.len() == 0 {
        assert(a =~= b);
    } else if a.len() > 0 && b.len() > 0 && a[0] == b[0] {
        lemma_text_trichotomy(a.drop_first(), b.drop_first());
        if a.drop_first() == b.drop_first() {
            assert forall|i: int| 0 <= i < a.len() implies a[i] == b[i] by {
                if i > 0 {
                    assert(a.drop_first()[i - 1] == b.drop_first()[i - 1]);
                }
            }
            assert(a.drop_first().len() == b.drop_first().len());
            assert(a =~= b);
        }
    }
}

proof fn lemma_text_irreflexive(a: Seq<char>)
    ensures
        !text::text_before(a, a),
    decreases a.len(),
{
    if a.len() > 0 {
        lemma_text_irreflexive(a.drop_first());
    }
}

proof fn lemma_text_transitive(a: Seq<char>, b: Seq<char>, c: Seq<char>)
    requires
        text::text_before(a, b),
        text::text_before(b, c),
    ensures
        text::text_before(a, c),
    decreases a.len(),
{
    if a.len() > 0 && a[0] == b[0] && b[0] == c[0] {
        lemma_text_transitive(a.drop_first(), b.drop_first(), c.drop_first());
    }
}

proof fn lemma_key_order(a: KeyView, b: KeyView, c: KeyView)
    ensures
        key_before(a, b) && key_before(b, c) ==> key_before(a, c),
        key_before(a, b) || key_before(b, a) || a == b,
        !(key_before(a, b) && key_before(b, a)),
        !key_before(a, a),
{
    lemma_text_trichotomy(a.text, b.text);
    lemma_text_trichotomy(a.text, a.text);
    if text::text_before(a.text, b.text) && text::text_before(b.text, c.text) {
        lemma_text_transitive(a.text, b.text, c.text);
    }
}

proof fn lemma_placed_at(order: Seq<usize>, keys: Seq<KeyView>, x: usize, at: int)
    requires
        0 <= at <= order.len(),
        at > 0 ==> !key_before(keys[x as int], keys[order[at - 1] as int]),
        forall|k: int|
            at <= k < order.len() ==> key_before(keys[x as int], keys[#[trigger] order[k] as int]),
    ensures
        placed_in(order, keys, x) == order.insert(at, x),
    decreases order.len(),
{
    if at == order.len() {
        assert(order.insert(at, x) =~= order.push(x));
        if order.len() == 0 {
            assert(order.push(x) =~= seq![x]);
        }
    } else {
        assert(key_before(keys[x as int], keys[order[order.len() - 1] as int]));
        lemma_placed_at(order.drop_last(), keys, x, at);
        assert(order.drop_last().insert(at, x).push(order.last()) =~= order.insert(at, x));
    }
}

/// Where `placed_in` puts `x`.
pub proof fn lemma_placed_where(order: Seq<usize>, keys: Seq<KeyView>, x: usize) -> (at: int)
    ensures
        0 <= at <= order.len(),
        at > 0 ==> !key_before(keys[x as int], keys[order[at - 1] as int]),
        forall|k: int|
            at <= k < order.len() ==> key_before(keys[x as int], keys[#[trigger] order[k] as int]),
        placed_in(order, keys, x) == order.insert(at, x),
    decreases order.len(),
{
    if order.len() == 0 || !key_before(keys[x as int], keys[order.last() as int]) {
        lemma_placed_at(order, keys, x, order.len() as int);
        order.len() as int
    } else {
        let at = lemma_placed_where(order.drop_last(), keys, x);
        assert forall|k: int| at <= k < order.len() implies key_before(
            keys[x as int],
            keys[#[trigger] order[k] as int],
        ) by {
            if k < order.len() - 1 {
                assert(order.drop_last()[k] == order[k]);
            }
        }
        lemma_placed_at(order, keys, x, at);
        at
    }
}

/// Sorting by key gives every position once, by ascending key, and keeps the
/// order of positions with equal keys.
pub proof fn order_is_stable(keys: Seq<KeyView>, n: nat)
    requires
        n <= keys.len(),
        n <= usize::MAX,
    ensures
        is_stable_order(order_upto(keys, n), keys, n),
    decreases n,
{
    if n > 0 {
        let m = (n - 1) as nat;
        let x = m as usize;
        order_is_stable(keys, m);
        let before = order_upto(keys, m);
        let at = lemma_placed_where(before, keys, x);
        let after = order_upto(keys, n);
        assert(after == before.insert(at, x));
        assert forall|i: int, j: int| 0 <= i < j < after.len() implies goes_before(
            keys,
            #[trigger] after[i],
            #[trigger] after[j],
        ) by {
            let bi = if i < at { i } else { i - 1 };
            let bj = if j < at { j } else { j - 1 };
            if i == at {
                assert(after[j] == before[bj]);
            } else if j == at {
                assert(after[i] == before[bi]);
                let p = keys[before[bi] as int];
                let q = keys[before[at - 1] as int];
                let r = keys[x as int];
                if bi < at - 1 {
                    assert(goes_before(keys, before[bi], before[at - 1]));
                }
                lemma_key_order(p, q, r);
                lemma_key_order(q, r, p);
                lemma_key_order(r, p, q);
            } else {
                assert(after[i] == before[bi] && after[j] == before[bj]);
            }
        }
        assert forall|y: int| 0 <= y < n implies #[trigger] holds(after, y) by {
            if y == m {
                assert(after[at] == y);
            } else {
                assert(holds(before, y));
                let i = choose|i: int| 0 <= i < before.len() && #[trigger] before[i] == y;
                if i < at {
                    assert(after[i] == y);
                } else {
                    assert(after[i + 1] == y);
                }
            }
        }
    }
}

/// Whether `a` comes before `b`.
pub fn key_less(a: &SortKey, b: &SortKey) -> (r: bool)
    ensures
        r == key_before(a@, b@),
{
    a.first < b.first || (a.first == b.first && a.second < b.second) || (a.first == b.first
        && a.second == b.second && text::text_less(a.text.as_str(), b.text.as_str()))
}

/// The positions of `keys` ordered by key, stably.
pub fn sorted_order(keys: &Vec<SortKey>) -> (r: Vec<usize>)
    ensures
        r@ == order_of(key_views(keys@)),
        is_stable_order(r@, key_views(keys@), keys@.len()),
{
    let mut order: Vec<usize> = Vec::new();
    let ghost views = key_views(keys@);
    let n: usize = keys.len();
    let mut x: usize = 0;
    while x < n
        invariant
            x <= n,
            n == keys@.len(),
            views == key_views(keys@),
            order@ == order_upto(views, x as nat),
            is_stable_order(order@, views, x as nat),
        decreases n - x,
    {
        let mut at: usize = order.len();
        while at > 0 && key_less(&keys[x], &keys[order[at - 1]])
            invariant
                at <= order@.len(),
                x < n,
                n == keys@.len(),
                views == key_views(keys@),
                is_stable_order(order@, views, x as nat),
                forall|k: int|
                    at <= k < order@.len() ==> key_before(
                        views[x as int],
                        views[#[trigger] order@[k] as int],
                    ),
            decreases at,
        {
            assert(views[order@[at - 1] as int] == keys@[order@[at - 1] as int]@);
            at -= 1;
        }
        proof {
            if at > 0 {
                assert(views[order@[at - 1] as int] == keys@[order@[at - 1] as int]@);
            }
            lemma_placed_at(order@, views, x, at as int);
            order_is_stable(views, (x + 1) as nat);
        }
        order.insert(at, x);
        x += 1;
    }
    order
}

proof fn lemma_placed_alike(order: Seq<usize>, a: Seq<KeyView>, b: Seq<KeyView>, x: usize)
    requires
        a[x as int] == b[x as int],
        forall|i: int|
            0 <= i < order.len() ==> a[(#[trigger] order[i]) as int] == b[order[i] as int],
    ensures
        placed_in(order, a, x) == placed_in(order, b, x),
    decreases order.len(),
{
    if order.len() > 0 {
        assert(a[order[order.len() - 1] as int] == b[order[order.len() - 1] as int]);
        let head = order.drop_last();
        assert forall|i: int| 0 <= i < head.len() implies a[(#[trigger] head[i]) as int]
            == b[head[i] as int] by {
            assert(head[i] == order[i]);
        }
        lemma_placed_alike(head, a, b, x);
    }
}

/// The order of the first positions depends on their keys alone.
pub proof fn order_depends_on_its_keys(a: Seq<KeyView>, b: Seq<KeyView>, n: nat)
    requires
        n <= a.len(),
        n <= b.len(),
        n <= usize::MAX,
        forall|i: int| 0 <= i < n ==> #[trigger] a[i] == b[i],
    ensures
        order_upto(a, n) == order_upto(b, n),
    decreases n,
{
    if n > 0 {
        let m = (n - 1) as nat;
        order_depends_on_its_keys(a, b, m);
        order_is_stable(a, m);
        let before = order_upto(a, m);
        assert forall|i: int| 0 <= i < before.len() implies a[(#[trigger] before[i]) as int]
            == b[before[i] as int] by {
            assert(before[i] < m);
        }
        lemma_placed_alike(before, a, b, m as usize);
    }
}

/// Texts are ordered by their first characters that differ; a text comes after
/// each of its own beginnings.
pub proof fn first_difference_decides(p: Seq<char>, a: Seq<char>, b: Seq<char>)
    ensures
        a.len() > 0 && b.len() > 0 && a[0] < b[0] ==> text::text_before(p + a, p + b),
        a.len() > 0 && b.len() > 0 && a[0] > b[0] ==> !text::text_before(p + a, p + b),
        b.len() > 0 ==> text::text_before(p, p + b),
        !text::text_before(p + a, p),
    decreases p.len(),
{
    if p.len() == 0 {
        assert(p + a =~= a);
        assert(p + b =~= b);
        assert(p =~= Seq::empty());
    } else {
        let q = p.drop_first();
        first_difference_decides(q, a, b);
        assert((p + a).drop_first() =~= q + a);
        assert((p + b).drop_first() =~= q + b);
    }
}

/// Sorting goes by the first number, then the second, then the text.
pub proof fn keys_go_by_their_parts(a: KeyView, b: KeyView)
    ensures
        a.first < b.first ==> key_before(a, b),
        a.first > b.first ==> !key_before(a, b),
        a.first == b.first && a.second < b.second ==> key_before(a, b),
        a.first == b.first && a.second > b.second ==> !key_before(a, b),
        a.first == b.first && a.second == b.second ==> key_before(a, b) == text::text_before(
            a.text,
            b.text,
        ),
{
}

} // verus!
