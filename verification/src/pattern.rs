//! Regular-expression search, with positions counted in characters.

use crate::text;
use vstd::prelude::*;

verus! {

broadcast use vstd::string::group_string_axioms;

/// One match: the spans of its capture groups, group 0 being the whole match.
#[derive(Debug)]
pub struct Match {
    pub groups: Vec<Option<(usize, usize)>>,
}

impl View for Match {
    type V = Seq<Option<(usize, usize)>>;

    open spec fn view(&self) -> Seq<Option<(usize, usize)>> {
        self.groups@
    }
}

/// The views of matches, in order.
pub open spec fn match_views(v: Seq<Match>) -> Seq<Seq<Option<(usize, usize)>>> {
    Seq::new(v.len(), |i: int| v[i]@)
}

/// Where a group's span begins.
pub open spec fn span_start(g: Option<(usize, usize)>) -> int {
    match g {
        Some((a, _)) => a as int,
        None => 0,
    }
}

/// Where a group's span ends.
pub open spec fn span_end(g: Option<(usize, usize)>) -> int {
    match g {
        Some((_, b)) => b as int,
        None => 0,
    }
}

/// Where the match begins.
pub open spec fn match_start(m: Seq<Option<(usize, usize)>>) -> int {
    span_start(m[0])
}

/// Where the match ends.
pub open spec fn match_end(m: Seq<Option<(usize, usize)>>) -> int {
    span_end(m[0])
}

/// The match has a whole span within the first `n` characters, and each group
/// that took part lies inside it.
pub open spec fn placed(m: Seq<Option<(usize, usize)>>, n: int) -> bool {
    &&& m.len() > 0
    &&& m[0] is Some
    &&& match_end(m) <= n
    &&& forall|k: int|
        0 <= k < m.len() && (#[trigger] m[k]) is Some ==> match_start(m) <= span_start(m[k])
            <= span_end(m[k]) <= match_end(m)
}

/// Every match is placed in a text of `n` characters, and each ends before the next begins.
pub open spec fn all_placed(found: Seq<Seq<Option<(usize, usize)>>>, n: int) -> bool {
    &&& forall|i: int| 0 <= i < found.len() ==> placed(#[trigger] found[i], n)
    &&& forall|i: int, j: int|
        0 <= i < j < found.len() ==> match_end(#[trigger] found[i]) <= match_start(
            #[trigger] found[j],
        )
}

/// What a `regex::Regex` made from `pattern` finds in `text` by
/// `captures_iter`; `None` where the pattern does not compile.
pub uninterp spec fn regex_found(pattern: Seq<char>, text: Seq<char>) -> Option<
    Seq<Seq<Option<(usize, usize)>>>,
>;

/// The matches of a pattern, of which a pattern that does not compile has none.
pub open spec fn matches_of(pattern: Seq<char>, text: Seq<char>) -> Seq<
    Seq<Option<(usize, usize)>>,
> {
    match regex_found(pattern, text) {
        Some(s) => s,
        None => Seq::empty(),
    }
}

/// The pattern matches somewhere in the text.
pub open spec fn matched(pattern: Seq<char>, text: Seq<char>) -> bool {
    matches_of(pattern, text).len() > 0
}

/// The leftmost match.
pub open spec fn first_of(found: Seq<Seq<Option<(usize, usize)>>>) -> Option<
    Seq<Option<(usize, usize)>>,
> {
    if found.len() > 0 {
        Some(found[0])
    } else {
        None
    }
}

/// The text of capture group `k`, where it took part.
pub open spec fn group_text(s: Seq<char>, m: Seq<Option<(usize, usize)>>, k: int) -> Option<
    Seq<char>,
> {
    if 0 <= k < m.len() {
        match m[k] {
            Some((a, b)) => Some(s.subrange(a as int, b as int)),
            None => None,
        }
    } else {
        None
    }
}

/// `regex::Regex::new` and `Regex::captures_iter`: the successive
/// non-overlapping matches, leftmost first, with byte offsets turned into
/// character positions. What they return is a function of the pattern and the
/// text, named `regex_found`. Beside the name the contract says that group 0
/// always took part, that a group lies inside its match and a match inside the
/// text, and that each match ends before the next begins.
#[verifier::external_body]
fn captures(pattern: &str, text: &str) -> (r: Option<Vec<Match>>)
    ensures
        match (r, regex_found(pattern@, text@)) {
            (Some(v), Some(s)) => match_views(v@) == s && all_placed(s, text@.len() as int),
            (None, None) => true,
            _ => false,
        },
{
    let re = regex::Regex::new(pattern).ok()?;
    let at = |b: usize| text[..b].chars().count();
    let spans = |c: regex::Captures| {
        c.iter().map(|g| g.map(|m| (at(m.start()), at(m.end())))).collect()
    };
    Some(re.captures_iter(text).map(|c| Match { groups: spans(c) }).collect())
}

/// All matches of the pattern in the text.
pub fn find_all(pattern: &str, text: &str) -> (r: Vec<Match>)
    ensures
        match_views(r@) == matches_of(pattern@, text@),
        all_placed(match_views(r@), text@.len() as int),
{
    match captures(pattern, text) {
        Some(v) => v,
        None => {
            let none: Vec<Match> = Vec::new();
            assert(match_views(none@) =~= Seq::empty());
            none
        },
    }
}

/// Whether the pattern matches somewhere in the text.
pub fn is_match(pattern: &str, text: &str) -> (r: bool)
    ensures
        r == matched(pattern@, text@),
{
    find_all(pattern, text).len() > 0
}

/// The leftmost match of the pattern in the text.
pub fn find_first(pattern: &str, text: &str) -> (r: Option<Match>)
    ensures
        match (r, first_of(matches_of(pattern@, text@))) {
            (Some(m), Some(v)) => m@ == v && placed(v, text@.len() as int),
            (None, None) => true,
            _ => false,
        },
{
    let mut found = find_all(pattern, text);
    let ghost all = match_views(found@);
    if found.len() == 0 {
        None
    } else {
        assert(all[0] == found@[0]@);
        let m = found.remove(0);
        Some(m)
    }
}

impl Match {
    /// The span of group `k`, where it took part.
    pub fn span(&self, k: usize) -> (r: Option<(usize, usize)>)
        ensures
            r == (if k < self@.len() {
                self@[k as int]
            } else {
                None
            }),
    {
        if k < self.groups.len() {
            self.groups[k]
        } else {
            None
        }
    }

    /// The text of group `k`, where it took part.
    pub fn group(&self, chars: &Vec<char>, k: usize) -> (r: Option<String>)
        requires
            placed(self@, chars@.len() as int),
        ensures
            text::opt_text(r) == group_text(chars@, self@, k as int),
    {
        match self.span(k) {
            Some((a, b)) => {
                let part = text::slice(chars, a, b);
                Some(text::string_of(&part))
            },
            None => None,
        }
    }
}

/// A group's text is what stands in its span; a group that took no part has none.
pub proof fn group_text_stands_in_its_span(
    s: Seq<char>,
    m: Seq<Option<(usize, usize)>>,
    k: int,
    a: usize,
    b: usize,
)
    requires
        0 <= k < m.len(),
        a <= b <= s.len(),
    ensures
        m[k] == Some((a, b)) ==> (group_text(s, m, k) matches Some(t) && t.len() == b - a && forall|
            i: int,
        |
            0 <= i < t.len() ==> #[trigger] t[i] == s[a + i]),
        m[k] is None ==> group_text(s, m, k) is None,
        m[0] == Some((a, b)) ==> match_start(m) == a && match_end(m) == b,
{
}

/// The leftmost match is the first that is found.
pub proof fn leftmost_match_comes_first(found: Seq<Seq<Option<(usize, usize)>>>)
    ensures
        found.len() > 0 ==> first_of(found) == Some(found[0]),
        found.len() == 0 ==> first_of(found) is None,
{
}

} // verus!
