//! Splitting thinking text that leaked into the visible answer: tags, fences
//! and closing tags without an opening one.
//!
//! Hosts call this helper themselves; streaming and plain responses carry
//! thinking text in fields of its own.

use crate::pattern;
use crate::pattern::Match;
use crate::text;
use vstd::prelude::*;

verus! {

broadcast use vstd::string::group_string_axioms;

/// A whole name that stands for thinking.
pub const THINK_STEM: &'static str =
    "(?i)^(?:redacted[_-]?)?(?:think(?:ing)?|reason(?:ing)?|thoughts?|reflection|scratch(?:pad)?|analysis|chain[_-]?of[_-]?thought|cot)$";

/// An opening tag and its name.
pub const OPEN_TAG: &'static str = "<\\s*([A-Za-z][\\w:.-]*)\\b[^>]*>";

/// A closing tag and its name.
pub const CLOSE_TAG: &'static str = "<\\s*/\\s*([A-Za-z][\\w:.-]*)\\s*>";

/// A line that opens a fence, and the fence's name.
pub const FENCE_OPEN: &'static str = "(?m)^[ \\t]*```[ \\t]*([A-Za-z][\\w-]*)[ \\t]*$";

/// Assistant text taken apart into thinking and visible content.
#[derive(Debug, Clone, PartialEq, Eq)]
pub struct ThinkSplit {
    pub thinking: String,
    pub content: String,
}

impl Default for ThinkSplit {
    fn default() -> (r: Self)
        ensures
            r.thinking@ == Seq::<char>::empty(),
            r.content@ == Seq::<char>::empty(),
    {
        let r = ThinkSplit { thinking: String::new(), content: String::new() };
        assert(r.thinking@ =~= Seq::empty());
        assert(r.content@ =~= Seq::empty());
        r
    }
}

/// What a marker in the text does.
#[derive(Debug, Clone, Copy, PartialEq, Eq, Structural)]
pub enum MarkerKind {
    Open,
    Close,
    FenceOpen,
    FenceClose,
}

/// A marker and the characters it takes up.
#[derive(Debug)]
pub struct Marker {
    pub kind: MarkerKind,
    pub index: usize,
    pub end: usize,
    pub name: String,
}

/// What a marker is.
pub struct MarkerView {
    pub kind: MarkerKind,
    pub index: int,
    pub end: int,
    pub name: Seq<char>,
}

impl View for Marker {
    type V = MarkerView;

    open spec fn view(&self) -> MarkerView {
        MarkerView {
            kind: self.kind,
            index: self.index as int,
            end: self.end as int,
            name: self.name@,
        }
    }
}

/// The view of an optional marker.
pub open spec fn opt_marker(m: Option<Marker>) -> Option<MarkerView> {
    match m {
        Some(x) => Some(x@),
        None => None,
    }
}

/// The span of an optional pair of positions.
pub open spec fn opt_span(s: Option<(usize, usize)>) -> Option<(int, int)> {
    match s {
        Some((a, b)) => Some((a as int, b as int)),
        None => None,
    }
}

/// The name without its namespace: what follows the last colon.
pub open spec fn bare_name(n: Seq<char>) -> Seq<char> {
    text::split_on(n, ':').last()
}

/// The name stands for thinking.
pub open spec fn is_think_name(name: Seq<char>) -> bool {
    let n = text::trimmed(name);
    n.len() > 0 && pattern::matched(THINK_STEM@, bare_name(n))
}

/// Returns true if `name` is a known name of thinking or reasoning text.
pub fn is_think_dialect_name(name: &str) -> (r: bool)
    ensures
        r == is_think_name(name@),
{
    let n = text::trim(name);
    if n.as_str().unicode_len() == 0 {
        return false;
    }
    let parts = text::split(n.as_str(), ':');
    let ghost all = text::texts(parts@);
    let bare = &parts[parts.len() - 1];
    assert(all.last() == bare@);
    pattern::is_match(THINK_STEM, bare.as_str())
}

/// The character is a space or a tab.
pub open spec fn is_blank_char(c: char) -> bool {
    c == ' ' || c == '\t'
}

/// Position after the spaces and tabs that start at `i`.
pub open spec fn after_blanks(s: Seq<char>, i: int) -> int
    decreases s.len() - i,
{
    if 0 <= i < s.len() && is_blank_char(s[i]) {
        after_blanks(s, i + 1)
    } else {
        i
    }
}

/// Position after the line feed that comes first at or after `i`.
pub open spec fn after_line(s: Seq<char>, i: int) -> Option<int>
    decreases s.len() - i,
{
    if 0 <= i < s.len() {
        if s[i] == '\n' {
            Some(i + 1)
        } else {
            after_line(s, i + 1)
        }
    } else {
        None
    }
}

/// Three backticks.
pub open spec fn backticks() -> Seq<char> {
    seq!['`', '`', '`']
}

/// Where the fence that stands alone on the line starting at `i` ends, if one does.
pub open spec fn lone_fence(s: Seq<char>, i: int) -> Option<int> {
    let a = after_blanks(s, i);
    if text::occurs_at(s, backticks(), a) {
        let b = after_blanks(s, a + 3);
        if b == s.len() || s[b] == '\n' || s[b] == '\r' {
            Some(b)
        } else {
            None
        }
    } else {
        None
    }
}

/// The first line at or after `i` that holds a fence alone: its start and the fence's end.
pub open spec fn fence_close(s: Seq<char>, i: int) -> Option<(int, int)>
    decreases s.len() - i,
{
    if 0 <= i < s.len() {
        match lone_fence(s, i) {
            Some(e) => Some((i, e)),
            None => match after_line(s, after_blanks(s, i)) {
                Some(j) => if i < j <= s.len() {
                    fence_close(s, j)
                } else {
                    None
                },
                None => None,
            },
        }
    } else {
        None
    }
}

fn skip_blanks(chars: &Vec<char>, from: usize) -> (r: usize)
    requires
        from <= chars@.len(),
    ensures
        r == after_blanks(chars@, from as int),
        from <= r <= chars@.len(),
{
    let mut i: usize = from;
    while i < chars.len() && (chars[i] == ' ' || chars[i] == '\t')
        invariant
            from <= i <= chars@.len(),
            after_blanks(chars@, from as int) == after_blanks(chars@, i as int),
        decreases chars@.len() - i,
    {
        i += 1;
    }
    i
}

fn skip_line(chars: &Vec<char>, from: usize) -> (r: Option<usize>)
    requires
        from <= chars@.len(),
    ensures
        match (r, after_line(chars@, from as int)) {
            (Some(a), Some(b)) => a == b && from < a <= chars@.len(),
            (None, None) => true,
            _ => false,
        },
{
    let mut i: usize = from;
    while i < chars.len()
        invariant
            from <= i <= chars@.len(),
            after_line(chars@, from as int) == after_line(chars@, i as int),
        decreases chars@.len() - i,
    {
        if chars[i] == '\n' {
            return Some(i + 1);
        }
        i += 1;
    }
    None
}

/// The first line at or after `from` that holds a fence alone.
pub fn find_fence_close_line(chars: &Vec<char>, from: usize) -> (r: Option<(usize, usize)>)
    requires
        from <= chars@.len(),
    ensures
        opt_span(r) == fence_close(chars@, from as int),
        r matches Some((a, b)) ==> from <= a < b <= chars@.len(),
{
    let mut i: usize = from;
    let mut ticks: Vec<char> = Vec::new();
    ticks.push('`');
    ticks.push('`');
    ticks.push('`');
    assert(ticks@ =~= backticks());
    while i < chars.len()
        invariant
            from <= i <= chars@.len(),
            ticks@ == backticks(),
            fence_close(chars@, from as int) == fence_close(chars@, i as int),
        decreases chars@.len() - i,
    {
        let a: usize = skip_blanks(chars, i);
        if text::matches_at(chars, &ticks, a) {
            let b: usize = skip_blanks(chars, a + 3);
            if b == chars.len() || chars[b] == '\n' || chars[b] == '\r' {
                return Some((i, b));
            }
        }
        assert(lone_fence(chars@, i as int) is None);
        match skip_line(chars, a) {
            Some(j) => {
                i = j;
            },
            None => {
                return None;
            },
        }
    }
    None
}

/// The first match whose name stands for thinking: `Err` where a match has no
/// name, `Ok(None)` where no match is left.
pub open spec fn first_named(
    s: Seq<char>,
    found: Seq<Seq<Option<(usize, usize)>>>,
    k: int,
) -> Result<Option<int>, ()>
    decreases found.len() - k,
{
    if 0 <= k < found.len() {
        match pattern::group_text(s, found[k], 1) {
            None => Err(()),
            Some(name) => if is_think_name(name) {
                Ok(Some(k))
            } else {
                first_named(s, found, k + 1)
            },
        }
    } else {
        Ok(None)
    }
}

/// The first match whose name stands for thinking.
pub fn find_named(chars: &Vec<char>, found: &Vec<Match>) -> (r: Result<Option<usize>, ()>)
    requires
        pattern::all_placed(pattern::match_views(found@), chars@.len() as int),
    ensures
        match (r, first_named(chars@, pattern::match_views(found@), 0)) {
            (Ok(Some(a)), Ok(Some(b))) => a == b && a < found@.len() && (pattern::group_text(
                chars@,
                found@[a as int]@,
                1,
            ) matches Some(n) && is_think_name(n)),
            (Ok(None), Ok(None)) => true,
            (Err(_), Err(_)) => true,
            _ => false,
        },
{
    let ghost views = pattern::match_views(found@);
    let mut k: usize = 0;
    while k < found.len()
        invariant
            k <= found@.len(),
            views == pattern::match_views(found@),
            pattern::all_placed(views, chars@.len() as int),
            first_named(chars@, views, 0) == first_named(chars@, views, k as int),
        decreases found@.len() - k,
    {
        assert(views[k as int] == found@[k as int]@);
        match found[k].group(chars, 1) {
            None => {
                return Err(());
            },
            Some(name) => {
                if is_think_dialect_name(name.as_str()) {
                    return Ok(Some(k));
                }
            },
        }
        k += 1;
    }
    Ok(None)
}

/// The marker that the first match with a thinking name makes, positions
/// counted from `from` on.
pub open spec fn named_marker(
    s: Seq<char>,
    from: int,
    kind: MarkerKind,
    found: Seq<Seq<Option<(usize, usize)>>>,
) -> Result<Option<MarkerView>, ()> {
    match first_named(s, found, 0) {
        Err(_) => Err(()),
        Ok(None) => Ok(None),
        Ok(Some(k)) => Ok(
            Some(
                MarkerView {
                    kind,
                    index: from + pattern::match_start(found[k]),
                    end: from + pattern::match_end(found[k]),
                    name: pattern::group_text(s, found[k], 1)->0,
                },
            ),
        ),
    }
}

fn marker_of(chars: &Vec<char>, from: usize, kind: MarkerKind, found: &Vec<Match>) -> (r: Result<
    Option<Marker>,
    (),
>)
    requires
        pattern::all_placed(pattern::match_views(found@), chars@.len() as int),
        from + chars@.len() <= usize::MAX,
    ensures
        match (r, named_marker(chars@, from as int, kind, pattern::match_views(found@))) {
            (Ok(a), Ok(b)) => opt_marker(a) == b && (a matches Some(m) ==> from <= m.index < m.end
                <= from + chars@.len()),
            (Err(_), Err(_)) => true,
            _ => false,
        },
{
    match find_named(chars, found) {
        Err(_) => Err(()),
        Ok(None) => Ok(None),
        Ok(Some(k)) => {
            let m = &found[k];
            assert(pattern::match_views(found@)[k as int] == m@);
            assert(pattern::placed(m@, chars@.len() as int));
            match (m.span(0), m.group(chars, 1)) {
                (Some((a, b)), Some(name)) => {
                    proof {
                        lemma_think_name_nonempty(name@);
                    }
                    Ok(Some(Marker { kind, index: from + a, end: from + b, name }))
                },
                _ => Ok(None),
            }
        },
    }
}

proof fn lemma_trimmed_shorter(s: Seq<char>)
    ensures
        text::trimmed(s).len() <= s.len(),
{
    lemma_trimmed_start_shorter(s);
    lemma_trimmed_end_shorter(text::trimmed_start(s));
}

proof fn lemma_trimmed_start_shorter(s: Seq<char>)
    ensures
        text::trimmed_start(s).len() <= s.len(),
    decreases s.len(),
{
    if s.len() > 0 && text::is_white(s[0]) {
        lemma_trimmed_start_shorter(s.drop_first());
    }
}

proof fn lemma_trimmed_end_shorter(s: Seq<char>)
    ensures
        text::trimmed_end(s).len() <= s.len(),
    decreases s.len(),
{
    if s.len() > 0 && text::is_white(s.last()) {
        lemma_trimmed_end_shorter(s.drop_last());
    }
}

proof fn lemma_think_name_nonempty(name: Seq<char>)
    requires
        is_think_name(name),
    ensures
        name.len() > 0,
{
    lemma_trimmed_shorter(name);
}

/// `a` comes before `b`, or takes up the same characters.
pub open spec fn not_after(a: MarkerView, b: MarkerView) -> bool {
    a.index < b.index || (a.index == b.index && a.end <= b.end)
}

/// The one of two markers that comes first; the first of equals.
pub open spec fn earlier(a: Option<MarkerView>, b: Option<MarkerView>) -> Option<MarkerView> {
    match (a, b) {
        (Some(x), Some(y)) => if not_after(x, y) {
            a
        } else {
            b
        },
        (Some(_), None) => a,
        (None, _) => b,
    }
}

/// The one of two markers that comes first.
pub fn choose_earlier(a: Option<Marker>, b: Option<Marker>) -> (r: Option<Marker>)
    ensures
        opt_marker(r) == earlier(opt_marker(a), opt_marker(b)),
        r == a || r == b,
{
    match (a, b) {
        (Some(x), Some(y)) => if x.index < y.index || (x.index == y.index && x.end <= y.end) {
            Some(x)
        } else {
            Some(y)
        },
        (Some(x), None) => Some(x),
        (None, y) => y,
    }
}

/// The marker for a fence that stands alone on its line.
pub open spec fn fence_marker(span: Option<(int, int)>) -> Option<MarkerView> {
    match span {
        Some((a, b)) => Some(
            MarkerView { kind: MarkerKind::FenceClose, index: a, end: b, name: Seq::empty() },
        ),
        None => None,
    }
}

/// The next marker, given what the three patterns find in the rest of the text.
pub open spec fn marker_among(
    s: Seq<char>,
    from: int,
    opens: Seq<Seq<Option<(usize, usize)>>>,
    closes: Seq<Seq<Option<(usize, usize)>>>,
    fences: Seq<Seq<Option<(usize, usize)>>>,
) -> Option<MarkerView> {
    let rest = s.subrange(from, s.len() as int);
    match (
        named_marker(rest, from, MarkerKind::Open, opens),
        named_marker(rest, from, MarkerKind::Close, closes),
        named_marker(rest, from, MarkerKind::FenceOpen, fences),
    ) {
        (Ok(a), Ok(b), Ok(c)) => earlier(
            earlier(earlier(a, b), c),
            fence_marker(fence_close(s, from)),
        ),
        _ => None,
    }
}

/// The next marker at or after `from`.
pub open spec fn next_marker(s: Seq<char>, from: int) -> Option<MarkerView> {
    let rest = s.subrange(from, s.len() as int);
    marker_among(
        s,
        from,
        pattern::matches_of(OPEN_TAG@, rest),
        pattern::matches_of(CLOSE_TAG@, rest),
        pattern::matches_of(FENCE_OPEN@, rest),
    )
}

/// The next marker, given what the three patterns find in the rest of the text.
pub fn select_marker(
    chars: &Vec<char>,
    from: usize,
    opens: &Vec<Match>,
    closes: &Vec<Match>,
    fences: &Vec<Match>,
) -> (r: Option<Marker>)
    requires
        from <= chars@.len(),
        pattern::all_placed(pattern::match_views(opens@), chars@.len() - from),
        pattern::all_placed(pattern::match_views(closes@), chars@.len() - from),
        pattern::all_placed(pattern::match_views(fences@), chars@.len() - from),
    ensures
        opt_marker(r) == marker_among(
            chars@,
            from as int,
            pattern::match_views(opens@),
            pattern::match_views(closes@),
            pattern::match_views(fences@),
        ),
        r matches Some(m) ==> from <= m.index < m.end <= chars@.len(),
{
    let n: usize = chars.len();
    let rest = text::slice(chars, from, n);
    match (
        marker_of(&rest, from, MarkerKind::Open, opens),
        marker_of(&rest, from, MarkerKind::Close, closes),
        marker_of(&rest, from, MarkerKind::FenceOpen, fences),
    ) {
        (Ok(a), Ok(b), Ok(c)) => {
            let d = match find_fence_close_line(chars, from) {
                Some((x, y)) => {
                    let m = Marker {
                        kind: MarkerKind::FenceClose,
                        index: x,
                        end: y,
                        name: String::new(),
                    };
                    assert(m.name@ =~= Seq::empty());
                    Some(m)
                },
                None => None,
            };
            let ab = choose_earlier(a, b);
            let abc = choose_earlier(ab, c);
            choose_earlier(abc, d)
        },
        _ => None,
    }
}

fn find_next_marker(chars: &Vec<char>, from: usize) -> (r: Option<Marker>)
    requires
        from <= chars@.len(),
    ensures
        opt_marker(r) == next_marker(chars@, from as int),
        r matches Some(m) ==> from <= m.index < m.end <= chars@.len(),
{
    let rest_chars = text::slice(chars, from, chars.len());
    let rest = text::string_of(&rest_chars);
    let opens = pattern::find_all(OPEN_TAG, rest.as_str());
    let closes = pattern::find_all(CLOSE_TAG, rest.as_str());
    let fences = pattern::find_all(FENCE_OPEN, rest.as_str());
    select_marker(chars, from, &opens, &closes, &fences)
}

/// The closing tag for a thinking tag, among the matches from index `k` on:
/// the first of the same name, else `any`, else the first that stands for
/// thinking. Positions are counted from `from` on.
pub open spec fn closing_among(
    rest: Seq<char>,
    from: int,
    open_name: Seq<char>,
    found: Seq<Seq<Option<(usize, usize)>>>,
    k: int,
    any: Option<(int, int)>,
) -> Option<(int, int)>
    decreases found.len() - k,
{
    if 0 <= k < found.len() {
        let span = (from + pattern::match_start(found[k]), from + pattern::match_end(found[k]));
        match pattern::group_text(rest, found[k], 1) {
            None => None,
            Some(name) => if !is_think_name(name) {
                closing_among(rest, from, open_name, found, k + 1, any)
            } else if text::ascii_lowered(name) == text::ascii_lowered(open_name) {
                Some(span)
            } else {
                closing_among(
                    rest,
                    from,
                    open_name,
                    found,
                    k + 1,
                    if any is None {
                        Some(span)
                    } else {
                        any
                    },
                )
            },
        }
    } else {
        any
    }
}

/// The closing tag for a thinking tag that was opened before `from`.
pub open spec fn closing_tag(s: Seq<char>, from: int, open_name: Seq<char>) -> Option<(int, int)> {
    let rest = s.subrange(from, s.len() as int);
    closing_among(rest, from, open_name, pattern::matches_of(CLOSE_TAG@, rest), 0, None)
}

/// The closing tag for a thinking tag, given the closing tags in the rest of the text.
pub fn select_closing(
    rest: &Vec<char>,
    from: usize,
    open_name: &str,
    found: &Vec<Match>,
) -> (r: Option<(usize, usize)>)
    requires
        from + rest@.len() <= usize::MAX,
        pattern::all_placed(pattern::match_views(found@), rest@.len() as int),
    ensures
        opt_span(r) == closing_among(
            rest@,
            from as int,
            open_name@,
            pattern::match_views(found@),
            0,
            None,
        ),
        r matches Some((a, b)) ==> from <= a <= b <= from + rest@.len(),
{
    let ghost views = pattern::match_views(found@);
    let mut any: Option<(usize, usize)> = None;
    let mut k: usize = 0;
    while k < found.len()
        invariant
            k <= found@.len(),
            views == pattern::match_views(found@),
            from + rest@.len() <= usize::MAX,
            pattern::all_placed(views, rest@.len() as int),
            any matches Some((a, b)) ==> from <= a <= b <= from + rest@.len(),
            closing_among(rest@, from as int, open_name@, views, 0, None) == closing_among(
                rest@,
                from as int,
                open_name@,
                views,
                k as int,
                opt_span(any),
            ),
        decreases found@.len() - k,
    {
        let m = &found[k];
        assert(views[k as int] == m@);
        match (m.span(0), m.group(rest, 1)) {
            (Some((a, b)), Some(name)) => {
                if is_think_dialect_name(name.as_str()) {
                    if text::eq_ignore_ascii_case(name.as_str(), open_name) {
                        return Some((from + a, from + b));
                    }
                    if any.is_none() {
                        any = Some((from + a, from + b));
                    }
                }
            },
            _ => {
                return None;
            },
        }
        k += 1;
    }
    any
}

fn find_closing_tag(chars: &Vec<char>, from: usize, open_name: &str) -> (r: Option<(usize, usize)>)
    requires
        from <= chars@.len(),
    ensures
        opt_span(r) == closing_tag(chars@, from as int, open_name@),
        r matches Some((a, b)) ==> from <= a <= b <= chars@.len(),
{
    let n: usize = chars.len();
    let rest_chars = text::slice(chars, from, n);
    let rest = text::string_of(&rest_chars);
    let found = pattern::find_all(CLOSE_TAG, rest.as_str());
    select_closing(&rest_chars, from, open_name, &found)
}

/// What has been split off so far.
pub struct SplitView {
    pub thinking: Seq<char>,
    pub content: Seq<char>,
}

/// Thinking text with a further chunk, set off by an empty line.
pub open spec fn more_thinking(thinking: Seq<char>, chunk: Seq<char>) -> Seq<char> {
    if chunk.len() == 0 {
        thinking
    } else if thinking.len() == 0 {
        chunk
    } else {
        thinking + "\n\n"@ + chunk
    }
}

/// What ends the text that a marker opens: a closing tag for a tag, a lone
/// fence for a fence.
pub open spec fn close_of(s: Seq<char>, m: MarkerView) -> Option<(int, int)> {
    match m.kind {
        MarkerKind::Open => closing_tag(s, m.end, m.name),
        MarkerKind::FenceOpen => fence_close(s, m.end),
        _ => None,
    }
}

/// The split after the marker `m` has been dealt with at position `i`, and
/// where to go on.
pub open spec fn after_marker(
    s: Seq<char>,
    i: int,
    m: MarkerView,
    close: Option<(int, int)>,
    so_far: SplitView,
) -> (SplitView, int) {
    match m.kind {
        MarkerKind::Open | MarkerKind::FenceOpen => {
            let content = so_far.content + s.subrange(i, m.index);
            match close {
                Some((a, b)) => (
                    SplitView {
                        thinking: more_thinking(so_far.thinking, s.subrange(m.end, a)),
                        content,
                    },
                    b,
                ),
                None => (
                    SplitView {
                        thinking: more_thinking(
                            so_far.thinking,
                            s.subrange(m.end, s.len() as int),
                        ),
                        content,
                    },
                    s.len() as int,
                ),
            }
        },
        MarkerKind::Close => (
            SplitView {
                thinking: more_thinking(so_far.thinking, s.subrange(i, m.index)),
                content: so_far.content,
            },
            m.end,
        ),
        MarkerKind::FenceClose => (
            SplitView {
                thinking: so_far.thinking,
                content: so_far.content + s.subrange(i, m.end),
            },
            m.end,
        ),
    }
}

/// The split of the text from `i` on, added to what was split off before.
pub open spec fn split_from(s: Seq<char>, i: int, so_far: SplitView) -> SplitView
    decreases s.len() - i,
{
    if 0 <= i < s.len() {
        match next_marker(s, i) {
            None => SplitView {
                thinking: so_far.thinking,
                content: so_far.content + s.subrange(i, s.len() as int),
            },
            Some(m) => {
                let (next, j) = after_marker(s, i, m, close_of(s, m), so_far);
                if i < j <= s.len() {
                    split_from(s, j, next)
                } else {
                    next
                }
            },
        }
    } else {
        so_far
    }
}

/// The split of a whole text, both parts without white space around them.
pub open spec fn think_split(s: Seq<char>) -> SplitView {
    let raw = split_from(s, 0, SplitView { thinking: Seq::empty(), content: Seq::empty() });
    SplitView { thinking: text::trimmed(raw.thinking), content: text::trimmed(raw.content) }
}

fn append_thinking(thinking: &mut String, chunk: &str)
    ensures
        final(thinking)@ == more_thinking(old(thinking)@, chunk@),
{
    if chunk.unicode_len() == 0 {
        return;
    }
    if thinking.as_str().unicode_len() > 0 {
        thinking.append("\n\n");
    }
    thinking.append(chunk);
    proof {
        if old(thinking)@.len() == 0 {
            assert(old(thinking)@ + chunk@ =~= chunk@);
        }
    }
}

/// Deals with the marker `m`, which comes next at or after `i`, given what
/// ends the text that it opens; returns where to go on.
pub fn apply_marker(
    chars: &Vec<char>,
    i: usize,
    m: &Marker,
    close: Option<(usize, usize)>,
    thinking: &mut String,
    content: &mut String,
) -> (r: usize)
    requires
        i <= m.index <= m.end <= chars@.len(),
        close matches Some((a, b)) ==> m.end <= a <= b <= chars@.len(),
    ensures
        ({
            let (next, j) = after_marker(
                chars@,
                i as int,
                m@,
                opt_span(close),
                SplitView { thinking: old(thinking)@, content: old(content)@ },
            );
            &&& final(thinking)@ == next.thinking
            &&& final(content)@ == next.content
            &&& r == j
            &&& r <= chars@.len()
        }),
{
    match m.kind {
        MarkerKind::Open | MarkerKind::FenceOpen => {
            let plain = text::slice(chars, i, m.index);
            content.append(text::string_of(&plain).as_str());
            match close {
                Some((a, b)) => {
                    let chunk = text::slice(chars, m.end, a);
                    append_thinking(thinking, text::string_of(&chunk).as_str());
                    b
                },
                None => {
                    let chunk = text::slice(chars, m.end, chars.len());
                    append_thinking(thinking, text::string_of(&chunk).as_str());
                    chars.len()
                },
            }
        },
        MarkerKind::Close => {
            let chunk = text::slice(chars, i, m.index);
            append_thinking(thinking, text::string_of(&chunk).as_str());
            m.end
        },
        MarkerKind::FenceClose => {
            let plain = text::slice(chars, i, m.end);
            content.append(text::string_of(&plain).as_str());
            m.end
        },
    }
}

/// Splits leaked thinking text from assistant text.
pub fn split_think_blocks(text: &str) -> (r: ThinkSplit)
    ensures
        r.thinking@ == think_split(text@).thinking,
        r.content@ == think_split(text@).content,
{
    let chars = text::to_chars(text);
    let mut thinking = String::new();
    let mut content = String::new();
    let mut i: usize = 0;
    let ghost whole = split_from(
        text@,
        0,
        SplitView { thinking: Seq::empty(), content: Seq::empty() },
    );
    assert(thinking@ =~= Seq::empty());
    assert(content@ =~= Seq::empty());
    while i < chars.len()
        invariant
            i <= chars@.len(),
            chars@ == text@,
            whole == split_from(
                text@,
                i as int,
                SplitView { thinking: thinking@, content: content@ },
            ),
        decreases chars@.len() - i,
    {
        match find_next_marker(&chars, i) {
            None => {
                let rest = text::slice(&chars, i, chars.len());
                content.append(text::string_of(&rest).as_str());
                i = chars.len();
            },
            Some(m) => {
                let close = match m.kind {
                    MarkerKind::Open => find_closing_tag(&chars, m.end, m.name.as_str()),
                    MarkerKind::FenceOpen => find_fence_close_line(&chars, m.end),
                    _ => None,
                };
                i = apply_marker(&chars, i, &m, close, &mut thinking, &mut content);
            },
        }
    }
    ThinkSplit { thinking: text::trim(thinking.as_str()), content: text::trim(content.as_str()) }
}

/// Removes leaked thinking text and keeps the visible answer.
pub fn strip_think_dialects(text: &str) -> (r: String)
    ensures
        r@ == think_split(text@).content,
{
    split_think_blocks(text).content
}

/// Text without any marker is visible content throughout.
pub proof fn unmarked_text_is_content(s: Seq<char>)
    requires
        next_marker(s, 0) is None,
    ensures
        think_split(s).thinking == Seq::<char>::empty(),
        think_split(s).content == text::trimmed(s),
{
    assert(s.subrange(0, s.len() as int) =~= s);
    assert(Seq::<char>::empty() + s =~= s);
    if s.len() == 0 {
        assert(s =~= Seq::empty());
    }
}

/// What is split off from position `i` on, before trimming.
pub open spec fn raw_split(s: Seq<char>, i: int) -> SplitView {
    split_from(s, i, SplitView { thinking: Seq::empty(), content: Seq::empty() })
}

proof fn lemma_split_adds(s: Seq<char>, i: int, so_far: SplitView)
    requires
        0 <= i <= s.len(),
    ensures
        split_from(s, i, so_far).content == so_far.content + raw_split(s, i).content,
        split_from(s, i, so_far).thinking == more_thinking(
            so_far.thinking,
            raw_split(s, i).thinking,
        ),
    decreases s.len() - i,
{
    let none = SplitView { thinking: Seq::empty(), content: Seq::empty() };
    if i < s.len() {
        match next_marker(s, i) {
            None => {
                assert(none.content + s.subrange(i, s.len() as int) =~= s.subrange(
                    i,
                    s.len() as int,
                ));
            },
            Some(m) => {
                let (a, j) = after_marker(s, i, m, close_of(s, m), so_far);
                let (b, k) = after_marker(s, i, m, close_of(s, m), none);
                assert(j == k);
                assert(a.content =~= so_far.content + b.content);
                assert(a.thinking =~= more_thinking(so_far.thinking, b.thinking));
                if i < j <= s.len() {
                    lemma_split_adds(s, j, a);
                    lemma_split_adds(s, j, b);
                    let r = raw_split(s, j);
                    assert(so_far.content + b.content + r.content =~= so_far.content + (b.content
                        + r.content));
                    let x = so_far.thinking;
                    let y = b.thinking;
                    let z = r.thinking;
                    assert(more_thinking(more_thinking(x, y), z) =~= more_thinking(
                        x,
                        more_thinking(y, z),
                    ));
                }
            },
        }
    } else {
        assert(so_far.content + none.content =~= so_far.content);
    }
}

/// A block of thinking leaves what stands before it and what is split off after
/// it: the content is the one followed by the other, and the block's inside is
/// the first of the thinking, an empty line before what comes later.
pub proof fn blocks_are_split_one_by_one(s: Seq<char>, i: int, m: MarkerView, c: int, d: int)
    requires
        0 <= i <= m.index <= m.end <= c <= d <= s.len(),
        i < d,
        next_marker(s, i) == Some(m),
        m.kind == MarkerKind::Open || m.kind == MarkerKind::FenceOpen,
        close_of(s, m) == Some((c, d)),
    ensures
        raw_split(s, i).content == s.subrange(i, m.index) + raw_split(s, d).content,
        ({
            let inside = s.subrange(m.end, c);
            let later = raw_split(s, d).thinking;
            raw_split(s, i).thinking == (if inside.len() == 0 {
                later
            } else if later.len() == 0 {
                inside
            } else {
                inside + "\n\n"@ + later
            })
        }),
{
    let none = SplitView { thinking: Seq::empty(), content: Seq::empty() };
    let next = SplitView {
        thinking: more_thinking(Seq::empty(), s.subrange(m.end, c)),
        content: Seq::empty() + s.subrange(i, m.index),
    };
    assert(after_marker(s, i, m, close_of(s, m), none) == (next, d));
    lemma_split_adds(s, d, next);
    assert(next.content =~= s.subrange(i, m.index));
    assert(next.thinking =~= s.subrange(m.end, c));
}

/// No visible text is lost: where one thinking block is all the markup of a
/// text, the content is the text before and after it, and the thinking is the
/// text inside it.
pub proof fn text_around_thinking_is_kept(s: Seq<char>, m: MarkerView, c: int, d: int)
    requires
        0 <= m.index < m.end <= c <= d <= s.len(),
        next_marker(s, 0) == Some(m),
        m.kind == MarkerKind::Open || m.kind == MarkerKind::FenceOpen,
        close_of(s, m) == Some((c, d)),
        next_marker(s, d) is None,
    ensures
        think_split(s).content == text::trimmed(
            s.subrange(0, m.index) + s.subrange(d, s.len() as int),
        ),
        think_split(s).thinking == text::trimmed(s.subrange(m.end, c)),
{
    blocks_are_split_one_by_one(s, 0, m, c, d);
    lemma_unmarked_rest(s, d);
}

proof fn lemma_unmarked_rest(s: Seq<char>, d: int)
    requires
        0 <= d <= s.len(),
        next_marker(s, d) is None,
    ensures
        raw_split(s, d).content == s.subrange(d, s.len() as int),
        raw_split(s, d).thinking == Seq::<char>::empty(),
{
    let rest = s.subrange(d, s.len() as int);
    assert(Seq::<char>::empty() + rest =~= rest);
    if d == s.len() {
        assert(rest =~= Seq::empty());
    }
}

/// A thinking block that is never closed reaches to the end of the text.
pub proof fn unclosed_thinking_reaches_to_the_end(s: Seq<char>, m: MarkerView)
    requires
        0 <= m.index < m.end <= s.len(),
        next_marker(s, 0) == Some(m),
        m.kind == MarkerKind::Open || m.kind == MarkerKind::FenceOpen,
        close_of(s, m) is None,
    ensures
        think_split(s).content == text::trimmed(s.subrange(0, m.index)),
        think_split(s).thinking == text::trimmed(s.subrange(m.end, s.len() as int)),
{
    let none = SplitView { thinking: Seq::empty(), content: Seq::empty() };
    let n = s.len() as int;
    let next = SplitView {
        thinking: more_thinking(Seq::empty(), s.subrange(m.end, n)),
        content: Seq::empty() + s.subrange(0, m.index),
    };
    assert(after_marker(s, 0, m, close_of(s, m), none) == (next, n));
    assert(split_from(s, n, next) == next);
    assert(next.content =~= s.subrange(0, m.index));
    assert(next.thinking =~= s.subrange(m.end, n));
}

/// What stands before a closing tag without an opening one is thinking, and
/// what stands after it is content.
pub proof fn orphan_closing_tag_ends_thinking(s: Seq<char>, m: MarkerView)
    requires
        0 <= m.index < m.end <= s.len(),
        next_marker(s, 0) == Some(m),
        m.kind == MarkerKind::Close,
        next_marker(s, m.end) is None,
    ensures
        think_split(s).content == text::trimmed(s.subrange(m.end, s.len() as int)),
        think_split(s).thinking == text::trimmed(s.subrange(0, m.index)),
{
    let none = SplitView { thinking: Seq::empty(), content: Seq::empty() };
    let next = SplitView {
        thinking: more_thinking(Seq::empty(), s.subrange(0, m.index)),
        content: Seq::empty(),
    };
    assert(after_marker(s, 0, m, close_of(s, m), none) == (next, m.end));
    lemma_split_adds(s, m.end, next);
    lemma_unmarked_rest(s, m.end);
    let rest = s.subrange(m.end, s.len() as int);
    assert(Seq::<char>::empty() + rest =~= rest);
    assert(next.thinking =~= s.subrange(0, m.index));
}

/// A fence that opens nothing stays in the content.
pub proof fn lone_fences_stay(s: Seq<char>, m: MarkerView)
    requires
        0 <= m.index < m.end <= s.len(),
        next_marker(s, 0) == Some(m),
        m.kind == MarkerKind::FenceClose,
        next_marker(s, m.end) is None,
    ensures
        think_split(s).content == text::trimmed(s),
        think_split(s).thinking.len() == 0,
{
    let none = SplitView { thinking: Seq::empty(), content: Seq::empty() };
    let next = SplitView {
        thinking: Seq::empty(),
        content: Seq::empty() + s.subrange(0, m.end),
    };
    assert(after_marker(s, 0, m, close_of(s, m), none) == (next, m.end));
    lemma_split_adds(s, m.end, next);
    lemma_unmarked_rest(s, m.end);
    assert(next.content + s.subrange(m.end, s.len() as int) =~= s);
}

/// The name of a match stands for thinking.
pub open spec fn names_thinking(s: Seq<char>, m: Seq<Option<(usize, usize)>>) -> bool {
    pattern::group_text(s, m, 1) matches Some(n) && is_think_name(n)
}

proof fn lemma_first_named(s: Seq<char>, found: Seq<Seq<Option<(usize, usize)>>>, i: int, k: int)
    requires
        0 <= i <= k <= found.len(),
        forall|j: int|
            i <= j < k ==> pattern::group_text(s, #[trigger] found[j], 1) is Some
                && !names_thinking(s, found[j]),
        k < found.len() ==> names_thinking(s, found[k]),
    ensures
        first_named(s, found, i) == Ok::<Option<int>, ()>(
            if k < found.len() {
                Some(k)
            } else {
                None
            },
        ),
    decreases k - i,
{
    if i < k {
        assert(!names_thinking(s, found[i]));
        lemma_first_named(s, found, i + 1, k);
    }
}

/// A match of a pattern for tags or fences is the pattern's marker where its
/// name is the first that stands for thinking; others are passed over.
pub proof fn first_thinking_name_marks(
    s: Seq<char>,
    from: int,
    kind: MarkerKind,
    found: Seq<Seq<Option<(usize, usize)>>>,
    k: int,
)
    requires
        0 <= k < found.len(),
        names_thinking(s, found[k]),
        forall|j: int|
            0 <= j < k ==> pattern::group_text(s, #[trigger] found[j], 1) is Some
                && !names_thinking(s, found[j]),
    ensures
        named_marker(s, from, kind, found) matches Ok(Some(m)) && m.kind == kind && m.index == from
            + pattern::match_start(found[k]) && m.end == from + pattern::match_end(found[k])
            && Some(m.name) == pattern::group_text(s, found[k], 1),
{
    lemma_first_named(s, found, 0, k);
}

/// Where no name stands for thinking there is no marker.
pub proof fn other_names_mark_nothing(
    s: Seq<char>,
    from: int,
    kind: MarkerKind,
    found: Seq<Seq<Option<(usize, usize)>>>,
)
    requires
        forall|j: int|
            0 <= j < found.len() ==> pattern::group_text(s, #[trigger] found[j], 1) is Some
                && !names_thinking(s, found[j]),
    ensures
        named_marker(s, from, kind, found) == Ok::<Option<MarkerView>, ()>(None),
{
    lemma_first_named(s, found, 0, found.len() as int);
}

/// The next marker is one of those that the patterns and the fences give, and
/// none of the others comes before it.
pub proof fn next_marker_comes_first(s: Seq<char>, from: int)
    requires
        0 <= from <= s.len(),
    ensures
        ({
            let rest = s.subrange(from, s.len() as int);
            let a = named_marker(
                rest,
                from,
                MarkerKind::Open,
                pattern::matches_of(OPEN_TAG@, rest),
            );
            let b = named_marker(
                rest,
                from,
                MarkerKind::Close,
                pattern::matches_of(CLOSE_TAG@, rest),
            );
            let c = named_marker(
                rest,
                from,
                MarkerKind::FenceOpen,
                pattern::matches_of(FENCE_OPEN@, rest),
            );
            let d = fence_close(s, from);
            a is Ok && b is Ok && c is Ok ==> match next_marker(s, from) {
                None => a->Ok_0 is None && b->Ok_0 is None && c->Ok_0 is None && d is None,
                Some(m) => {
                    &&& a->Ok_0 == Some(m) || b->Ok_0 == Some(m) || c->Ok_0 == Some(m) || d == Some(
                        (m.index, m.end),
                    ) && m.kind == MarkerKind::FenceClose
                    &&& a->Ok_0 matches Some(x) ==> comes_by(m, x.index, x.end)
                    &&& b->Ok_0 matches Some(x) ==> comes_by(m, x.index, x.end)
                    &&& c->Ok_0 matches Some(x) ==> comes_by(m, x.index, x.end)
                    &&& d matches Some((x, y)) ==> comes_by(m, x, y)
                },
            }
        }),
{
}

/// The marker begins before the given span, or with it and ends no later.
pub open spec fn comes_by(m: MarkerView, start: int, end: int) -> bool {
    m.index < start || (m.index == start && m.end <= end)
}

/// A closing tag of the opening tag's own name closes it, whatever other names
/// for thinking are closed before; the first of that name counts.
pub proof fn own_closing_tag_closes(
    rest: Seq<char>,
    from: int,
    open_name: Seq<char>,
    found: Seq<Seq<Option<(usize, usize)>>>,
    i: int,
    k: int,
    any: Option<(int, int)>,
)
    requires
        0 <= i <= k < found.len(),
        names_thinking(rest, found[k]),
        same_name(rest, found[k], open_name),
        forall|j: int|
            i <= j < k ==> pattern::group_text(rest, #[trigger] found[j], 1) is Some && !(
            names_thinking(rest, found[j]) && same_name(rest, found[j], open_name)),
    ensures
        closing_among(rest, from, open_name, found, i, any) == Some(
            (from + pattern::match_start(found[k]), from + pattern::match_end(found[k])),
        ),
    decreases k - i,
{
    if i < k {
        let span = (from + pattern::match_start(found[i]), from + pattern::match_end(found[i]));
        assert(!(names_thinking(rest, found[i]) && same_name(rest, found[i], open_name)));
        own_closing_tag_closes(
            rest,
            from,
            open_name,
            found,
            i + 1,
            k,
            if names_thinking(rest, found[i]) && any is None {
                Some(span)
            } else {
                any
            },
        );
    }
}

/// The match's name is the given one, whatever the case of ASCII letters.
pub open spec fn same_name(
    rest: Seq<char>,
    m: Seq<Option<(usize, usize)>>,
    name: Seq<char>,
) -> bool {
    pattern::group_text(rest, m, 1) matches Some(n) && text::ascii_lowered(n)
        == text::ascii_lowered(name)
}

/// Where the opening tag's own name is never closed, the first closing tag that
/// stands for thinking closes it.
pub proof fn another_closing_tag_closes(
    rest: Seq<char>,
    from: int,
    open_name: Seq<char>,
    found: Seq<Seq<Option<(usize, usize)>>>,
    k: int,
)
    requires
        0 <= k <= found.len(),
        k < found.len() ==> names_thinking(rest, found[k]),
        forall|j: int|
            0 <= j < found.len() ==> pattern::group_text(rest, #[trigger] found[j], 1) is Some && !(
            names_thinking(rest, found[j]) && same_name(rest, found[j], open_name)),
        forall|j: int| 0 <= j < k ==> !names_thinking(rest, #[trigger] found[j]),
    ensures
        closing_among(rest, from, open_name, found, 0, None) == (if k < found.len() {
            Some((from + pattern::match_start(found[k]), from + pattern::match_end(found[k])))
        } else {
            None
        }),
{
    lemma_skips_others(rest, from, open_name, found, 0, k);
    if k < found.len() {
        let span = (from + pattern::match_start(found[k]), from + pattern::match_end(found[k]));
        lemma_keeps_any(rest, from, open_name, found, k + 1, span);
    }
}

proof fn lemma_skips_others(
    rest: Seq<char>,
    from: int,
    open_name: Seq<char>,
    found: Seq<Seq<Option<(usize, usize)>>>,
    i: int,
    k: int,
)
    requires
        0 <= i <= k <= found.len(),
        forall|j: int|
            i <= j < k ==> pattern::group_text(rest, #[trigger] found[j], 1) is Some
                && !names_thinking(rest, found[j]),
    ensures
        closing_among(rest, from, open_name, found, i, None) == closing_among(
            rest,
            from,
            open_name,
            found,
            k,
            None,
        ),
    decreases k - i,
{
    if i < k {
        assert(!names_thinking(rest, found[i]));
        lemma_skips_others(rest, from, open_name, found, i + 1, k);
    }
}

proof fn lemma_keeps_any(
    rest: Seq<char>,
    from: int,
    open_name: Seq<char>,
    found: Seq<Seq<Option<(usize, usize)>>>,
    i: int,
    span: (int, int),
)
    requires
        0 <= i <= found.len(),
        forall|j: int|
            i <= j < found.len() ==> pattern::group_text(rest, #[trigger] found[j], 1) is Some && !(
            names_thinking(rest, found[j]) && same_name(rest, found[j], open_name)),
    ensures
        closing_among(rest, from, open_name, found, i, Some(span)) == Some(span),
    decreases found.len() - i,
{
    if i < found.len() {
        assert(pattern::group_text(rest, found[i], 1) is Some);
        lemma_keeps_any(rest, from, open_name, found, i + 1, span);
    }
}

/// A namespace before a name does not count, nor does white space around it.
pub proof fn namespaces_do_not_count(space: Seq<char>, name: Seq<char>)
    requires
        name.len() > 0,
        forall|i: int| 0 <= i < name.len() ==> #[trigger] name[i] != ':' && !text::is_white(name[i]),
        forall|i: int| 0 <= i < space.len() ==> !text::is_white(#[trigger] space[i]),
    ensures
        is_think_name(space + seq![':'] + name) == is_think_name(name),
        is_think_name(name) == pattern::matched(THINK_STEM@, name),
{
    let whole = space + seq![':'] + name;
    text::trimming_takes_white_space_alone(name, 0, name.len() as int);
    assert(name.subrange(0, name.len() as int) =~= name);
    assert(!text::is_white(whole[0])) by {
        if space.len() > 0 {
            assert(whole[0] == space[0]);
        }
    }
    assert(whole.last() == name[name.len() - 1]);
    text::trimming_takes_white_space_alone(whole, 0, whole.len() as int);
    assert(whole.subrange(0, whole.len() as int) =~= whole);
    text::splitting_goes_piece_by_piece(space, ':', name);
    text::unsplit_text_is_one_piece(name, ':');
    let parts = text::split_on(space, ':') + text::split_on(name, ':');
    assert(parts.last() == name);
}

/// A fence alone on its line is three backticks with nothing but blanks around
/// them up to the line's end.
pub proof fn lone_fence_is_alone(s: Seq<char>, i: int, e: int)
    requires
        0 <= i <= s.len(),
        lone_fence(s, i) == Some(e),
    ensures
        i + 3 <= e <= s.len(),
        exists|a: int|
            i <= a && a + 3 <= e && #[trigger] fence_stands(s, i, a, e),
        e == s.len() || s[e] == '\n' || s[e] == '\r',
{
    let a = after_blanks(s, i);
    lemma_blanks(s, i);
    lemma_blanks(s, a + 3);
    assert(s.subrange(a, a + 3) == backticks());
    assert(s.subrange(a, a + 3)[0] == s[a]);
    assert(s.subrange(a, a + 3)[1] == s[a + 1]);
    assert(s.subrange(a, a + 3)[2] == s[a + 2]);
    assert(fence_stands(s, i, a, e));
}

/// From `i` to `e` there are three backticks at `a` and blanks.
pub open spec fn fence_stands(s: Seq<char>, i: int, a: int, e: int) -> bool {
    &&& s[a] == '`' && s[a + 1] == '`' && s[a + 2] == '`'
    &&& forall|p: int| i <= p < a || a + 3 <= p < e ==> #[trigger] s[p] == ' ' || s[p] == '\t'
}

proof fn lemma_blanks(s: Seq<char>, i: int)
    requires
        0 <= i <= s.len(),
    ensures
        i <= after_blanks(s, i) <= s.len(),
        forall|p: int| i <= p < after_blanks(s, i) ==> #[trigger] s[p] == ' ' || s[p] == '\t',
        after_blanks(s, i) < s.len() ==> s[after_blanks(s, i)] != ' ' && s[after_blanks(s, i)]
            != '\t',
    decreases s.len() - i,
{
    if i < s.len() && is_blank_char(s[i]) {
        lemma_blanks(s, i + 1);
    }
}

/// The first line that is a fence alone closes; a line that is none is passed over.
pub proof fn first_lone_fence_closes(s: Seq<char>, i: int, j: int)
    requires
        0 <= i < j <= s.len(),
        s[j - 1] == '\n',
        forall|p: int| i <= p < j - 1 ==> #[trigger] s[p] != '\n',
    ensures
        fence_close(s, i) == (match lone_fence(s, i) {
            Some(e) => Some((i, e)),
            None => fence_close(s, j),
        }),
{
    lemma_blanks(s, i);
    let a = after_blanks(s, i);
    assert(a <= j - 1) by {
        if a > j - 1 {
            assert(s[j - 1] == ' ' || s[j - 1] == '\t');
        }
    }
    lemma_after_line(s, a, j);
    if j == s.len() {
        assert(fence_close(s, j) is None);
    }
}

proof fn lemma_after_line(s: Seq<char>, i: int, j: int)
    requires
        0 <= i < j <= s.len(),
        s[j - 1] == '\n',
        forall|p: int| i <= p < j - 1 ==> #[trigger] s[p] != '\n',
    ensures
        after_line(s, i) == Some(j),
    decreases j - i,
{
    if i < j - 1 {
        assert(s[i] != '\n');
        lemma_after_line(s, i + 1, j);
    }
}

/// The visible answer is what splitting leaves as content, and nothing else.
pub proof fn stripping_keeps_the_content(text: &str, a: ThinkSplit, b: String)
    requires
        call_ensures(split_think_blocks, (text,), a),
        call_ensures(strip_think_dialects, (text,), b),
    ensures
        a.content@ == b@,
        a.content@ == text::trimmed(raw_split(text@, 0).content),
        a.thinking@ == text::trimmed(raw_split(text@, 0).thinking),
{
}

} // verus!
