//! Raising background chunks to relevant ones before layers are filled: the
//! turns just before the active one, and tool output that shares words with
//! the user's question.

use crate::context::envelope;
use crate::context::envelope::{ContextLayer, MessageChunk};
use crate::text;
use crate::types::message;
use crate::types::message::{ContentBlock, Message, MessageContent, MessageRole};
use vstd::prelude::*;

verus! {

broadcast use vstd::string::group_string_axioms;

/// Which chunks are raised.
#[derive(Debug, Clone, Copy, PartialEq, Eq, Structural)]
pub struct SoftLayerPromotionOptions {
    /// User turns before the active one that are raised; zero for none.
    pub recent_turns: u8,
    /// Words that tool output must share with the question; zero raises none.
    pub tool_token_overlap_min: u8,
}

impl Default for SoftLayerPromotionOptions {
    fn default() -> (r: Self)
        ensures
            r.recent_turns == 3,
            r.tool_token_overlap_min == 2,
    {
        SoftLayerPromotionOptions { recent_turns: 3, tool_token_overlap_min: 2 }
    }
}

impl SoftLayerPromotionOptions {
    /// Options that raise nothing.
    pub fn disabled() -> (r: Self)
        ensures
            r.recent_turns == 0,
            r.tool_token_overlap_min == 0,
    {
        SoftLayerPromotionOptions { recent_turns: 0, tool_token_overlap_min: 0 }
    }

    /// Whether anything can be raised.
    pub fn is_enabled(self) -> (r: bool)
        ensures
            r == (self.recent_turns > 0 || self.tool_token_overlap_min > 0),
    {
        self.recent_turns > 0 || self.tool_token_overlap_min > 0
    }
}

/// The last of the first `n` chunks that is a user's message.
pub open spec fn last_user(cs: Seq<envelope::ChunkView>, n: int) -> Option<int>
    decreases n,
{
    if n <= 0 {
        None
    } else if cs[n - 1].message.role == MessageRole::User {
        Some(n - 1)
    } else {
        last_user(cs, n - 1)
    }
}

/// User messages from position `i` up to `end`.
pub open spec fn users_between(cs: Seq<envelope::ChunkView>, i: int, end: int) -> nat
    decreases end - i,
{
    if i >= end {
        0
    } else {
        users_between(cs, i + 1, end) + (if cs[i].message.role == MessageRole::User {
            1nat
        } else {
            0
        })
    }
}

/// The turn that the chunk at `i` belongs to, counted back from the active one
/// at `active`; counting stops at the largest `u8`.
pub open spec fn turn_back(cs: Seq<envelope::ChunkView>, i: int, active: int) -> nat {
    let n = users_between(cs, i, active);
    if n > 255 {
        255
    } else {
        n
    }
}

/// The chunk at `i` belongs to one of the `turns` turns before the active one.
pub open spec fn is_recent(
    cs: Seq<envelope::ChunkView>,
    i: int,
    active: int,
    turns: u8,
) -> bool {
    0 <= i < active && 1 <= turn_back(cs, i, active) <= turns
}

/// The texts of the text blocks among the first `n`.
pub open spec fn block_texts(b: Seq<message::BlockView>, n: int) -> Seq<Seq<char>>
    decreases n,
{
    if n <= 0 {
        Seq::empty()
    } else {
        match b[n - 1] {
            message::BlockView::Text { text } => block_texts(b, n - 1).push(text),
            _ => block_texts(b, n - 1),
        }
    }
}

/// The plain text of a message: its text, or that of its text blocks with
/// spaces between.
pub open spec fn plain_text(m: message::MessageView) -> Seq<char> {
    match m.content {
        message::ContentView::Text(t) => t,
        message::ContentView::Blocks(b) => text::joined(block_texts(b, b.len() as int), " "@),
    }
}

/// The pieces of `s` between characters that are neither letters nor numbers.
pub open spec fn word_pieces(s: Seq<char>) -> Seq<Seq<char>>
    decreases s.len(),
{
    if s.len() == 0 {
        seq![Seq::empty()]
    } else {
        let rest = word_pieces(s.drop_last());
        if text::alphanumeric(s.last()) {
            rest.update(rest.len() - 1, rest.last().push(s.last()))
        } else {
            rest.push(Seq::empty())
        }
    }
}

/// The words of a lower-case text that take at least three bytes.
pub open spec fn words_of(lowered: Seq<char>) -> Set<Seq<char>> {
    word_pieces(lowered).to_set().filter(|w: Seq<char>| text::byte_len(w) >= 3)
}

/// The words of a text, in lower case.
pub open spec fn tokens_in(s: Seq<char>) -> Set<Seq<char>> {
    words_of(text::lowercase_text(s))
}

/// The chunk is tool output that shares enough words with the question.
pub open spec fn is_overlapping(
    c: envelope::ChunkView,
    question: Set<Seq<char>>,
    min: u8,
) -> bool {
    &&& c.message.role == MessageRole::Tool
    &&& question.len() > 0
    &&& tokens_in(plain_text(c.message)).intersect(question).len() >= min
}

/// The chunk at `i` is raised.
pub open spec fn is_promoted(
    cs: Seq<envelope::ChunkView>,
    i: int,
    opts: SoftLayerPromotionOptions,
) -> bool {
    match last_user(cs, cs.len() as int) {
        None => false,
        Some(active) => {
            ||| opts.recent_turns > 0 && is_recent(cs, i, active, opts.recent_turns)
            ||| opts.tool_token_overlap_min > 0 && is_overlapping(
                cs[i],
                tokens_in(plain_text(cs[active].message)),
                opts.tool_token_overlap_min,
            )
        },
    }
}

/// The chunk raised from the background, or left as it is.
pub open spec fn raised(c: envelope::ChunkView, promoted: bool) -> envelope::ChunkView {
    if promoted && c.layer == ContextLayer::Background {
        envelope::ChunkView { layer: ContextLayer::Relevant, ..c }
    } else {
        c
    }
}

/// The chunks after promotion.
pub open spec fn promoted_chunks(
    cs: Seq<envelope::ChunkView>,
    opts: SoftLayerPromotionOptions,
) -> Seq<envelope::ChunkView> {
    Seq::new(cs.len(), |i: int| raised(cs[i], is_promoted(cs, i, opts)))
}

/// Distinct words.
#[derive(Debug)]
pub struct WordSet {
    pub words: Vec<String>,
}

impl View for WordSet {
    type V = Set<Seq<char>>;

    open spec fn view(&self) -> Set<Seq<char>> {
        text::texts(self.words@).to_set()
    }
}

impl WordSet {
    /// No word stands in the list twice.
    pub open spec fn well_formed(self) -> bool {
        text::texts(self.words@).no_duplicates()
    }

    /// Whether the word is in the set.
    pub fn contains(&self, w: &str) -> (r: bool)
        ensures
            r == self@.contains(w@),
    {
        let ghost all = text::texts(self.words@);
        let mut i: usize = 0;
        while i < self.words.len()
            invariant
                i <= self.words@.len(),
                all == text::texts(self.words@),
                forall|k: int| 0 <= k < i ==> #[trigger] all[k] != w@,
            decreases self.words@.len() - i,
        {
            assert(all[i as int] == self.words@[i as int]@);
            if text::text_eq(self.words[i].as_str(), w) {
                assert(all.contains(w@));
                return true;
            }
            i += 1;
        }
        proof {
            if all.contains(w@) {
                let k = choose|k: int| 0 <= k < all.len() && all[k] == w@;
                assert(all[k] != w@);
            }
        }
        false
    }

    /// Adds a word where it is not there yet.
    pub fn insert(&mut self, w: String)
        requires
            old(self).well_formed(),
        ensures
            final(self).well_formed(),
            final(self)@ == old(self)@.insert(w@),
    {
        if self.contains(w.as_str()) {
            assert(self@.insert(w@) =~= self@);
            return;
        }
        let ghost before = text::texts(self.words@);
        let ghost t = w@;
        assert(!before.contains(t)) by {
            if before.contains(t) {
                assert(self@.contains(t));
            }
        }
        self.words.push(w);
        proof {
            assert(text::texts(self.words@) =~= before.push(t));
            assert(self@ =~= old(self)@.insert(t)) by {
                assert forall|x: Seq<char>| before.push(t).contains(x) == (before.contains(x) || x
                    == t) by {
                    if before.contains(x) {
                        let k = choose|k: int| 0 <= k < before.len() && before[k] == x;
                        assert(before.push(t)[k] == x);
                    }
                    if x == t {
                        assert(before.push(t)[before.len() as int] == x);
                    }
                    if before.push(t).contains(x) && x != t {
                        let k = choose|k: int|
                            0 <= k < before.push(t).len() && before.push(t)[k] == x;
                        assert(before[k] == x);
                    }
                }
            }
        }
    }

    /// How many words of this set are in the other one.
    pub fn shared(&self, other: &WordSet) -> (r: usize)
        requires
            self.well_formed(),
        ensures
            r == self@.intersect(other@).len(),
    {
        let ghost all = text::texts(self.words@);
        let mut n: usize = 0;
        let mut i: usize = 0;
        let ghost mut seen: Set<Seq<char>> = Set::empty();
        assert(seen =~= all.take(0).to_set().intersect(other@));
        while i < self.words.len()
            invariant
                i <= self.words@.len(),
                n <= i,
                all == text::texts(self.words@),
                all.no_duplicates(),
                seen == all.take(i as int).to_set().intersect(other@),
                seen.finite(),
                seen.len() == n,
            decreases self.words@.len() - i,
        {
            let w = &self.words[i];
            assert(all[i as int] == w@);
            proof {
                let a = all.take(i as int);
                let b = all.take(i + 1);
                assert(b =~= a.push(w@));
                assert(!a.contains(w@)) by {
                    if a.contains(w@) {
                        let k = choose|k: int| 0 <= k < a.len() && a[k] == w@;
                        assert(all[k] == all[i as int]);
                    }
                }
                assert forall|x: Seq<char>| b.contains(x) == (a.contains(x) || x == w@) by {
                    if a.contains(x) {
                        let k = choose|k: int| 0 <= k < a.len() && a[k] == x;
                        assert(b[k] == x);
                    }
                    if x == w@ {
                        assert(b[i as int] == x);
                    }
                    if b.contains(x) && x != w@ {
                        let k = choose|k: int| 0 <= k < b.len() && b[k] == x;
                        assert(a[k] == x);
                    }
                }
                if other@.contains(w@) {
                    assert(b.to_set().intersect(other@) =~= seen.insert(w@));
                } else {
                    assert(b.to_set().intersect(other@) =~= seen);
                }
            }
            if other.contains(w.as_str()) {
                n += 1;
                proof {
                    seen = seen.insert(w@);
                }
            }
            i += 1;
        }
        assert(all.take(i as int) =~= all);
        n
    }
}

/// The pieces of a text between characters that are neither letters nor numbers.
fn split_words(s: &str) -> (r: Vec<String>)
    ensures
        text::texts(r@) == word_pieces(s@),
{
    let chars = text::to_chars(s);
    let mut done: Vec<String> = Vec::new();
    let mut last: Vec<char> = Vec::new();
    let mut i: usize = 0;
    while i < chars.len()
        invariant
            i <= chars@.len(),
            text::texts(done@).push(last@) == word_pieces(chars@.take(i as int)),
        decreases chars@.len() - i,
    {
        let c = chars[i];
        let ghost before = text::texts(done@).push(last@);
        assert(chars@.take(i + 1).drop_last() =~= chars@.take(i as int));
        if text::is_alphanumeric(c) {
            last.push(c);
            assert(text::texts(done@).push(last@) =~= before.update(before.len() - 1, last@));
        } else {
            done.push(text::string_of(&last));
            last = Vec::new();
            assert(text::texts(done@) =~= before);
            assert(last@ =~= Seq::<char>::empty());
        }
        i += 1;
    }
    let ghost before = text::texts(done@).push(last@);
    done.push(text::string_of(&last));
    assert(text::texts(done@) =~= before);
    assert(chars@.take(chars@.len() as int) =~= s@);
    done
}

/// The words of a lower-case text that take at least three bytes.
pub fn long_words(lowered: &str) -> (r: WordSet)
    ensures
        r.well_formed(),
        r@ == words_of(lowered@),
{
    let pieces = split_words(lowered);
    let ghost all = text::texts(pieces@);
    let mut out = WordSet { words: Vec::new() };
    assert(out@ =~= Set::empty());
    let ghost long = |w: Seq<char>| text::byte_len(w) >= 3;
    let mut i: usize = 0;
    assert(out@ =~= all.take(0).to_set().filter(long));
    while i < pieces.len()
        invariant
            i <= pieces@.len(),
            all == text::texts(pieces@),
            long == (|w: Seq<char>| text::byte_len(w) >= 3),
            out.well_formed(),
            out@ == all.take(i as int).to_set().filter(long),
        decreases pieces@.len() - i,
    {
        let w = pieces[i].clone();
        let ghost t = w@;
        assert(all[i as int] == t);
        let ghost a = all.take(i as int);
        let ghost b = all.take(i + 1);
        proof {
            assert(b =~= a.push(t));
            assert forall|x: Seq<char>| b.contains(x) == (a.contains(x) || x == t) by {
                if a.contains(x) {
                    let k = choose|k: int| 0 <= k < a.len() && a[k] == x;
                    assert(b[k] == x);
                }
                if x == t {
                    assert(b[i as int] == x);
                }
                if b.contains(x) && x != t {
                    let k = choose|k: int| 0 <= k < b.len() && b[k] == x;
                    assert(a[k] == x);
                }
            }
        }
        if w.as_str().as_bytes().len() >= 3 {
            assert(b.to_set().filter(long) =~= a.to_set().filter(long).insert(t));
            out.insert(w);
        } else {
            assert(b.to_set().filter(long) =~= a.to_set().filter(long));
        }
        i += 1;
    }
    assert(all.take(i as int) =~= all);
    out
}

fn normalized_tokens(s: &str) -> (r: WordSet)
    ensures
        r.well_formed(),
        r@ == tokens_in(s@),
{
    long_words(text::to_lowercase(s).as_str())
}

fn message_plain_text(m: &Message) -> (r: String)
    ensures
        r@ == plain_text(m@),
{
    match &m.content {
        MessageContent::Text(t) => t.clone(),
        MessageContent::Blocks(b) => {
            let ghost views = message::block_views(b@);
            let mut parts: Vec<String> = Vec::new();
            let mut i: usize = 0;
            assert(text::texts(parts@) =~= Seq::empty());
            while i < b.len()
                invariant
                    i <= b@.len(),
                    views == message::block_views(b@),
                    text::texts(parts@) == block_texts(views, i as int),
                decreases b@.len() - i,
            {
                assert(views[i as int] == b@[i as int]@);
                if let ContentBlock::Text { text: t } = &b[i] {
                    let ghost p0 = text::texts(parts@);
                    parts.push(t.clone());
                    assert(text::texts(parts@) =~= p0.push(t@));
                }
                i += 1;
            }
            text::join(&parts, " ")
        },
    }
}

fn find_last_user(chunks: &Vec<MessageChunk>) -> (r: Option<usize>)
    ensures
        match (r, last_user(envelope::chunk_views(chunks@), chunks@.len() as int)) {
            (Some(a), Some(b)) => a == b && a < chunks@.len(),
            (None, None) => true,
            _ => false,
        },
{
    let ghost views = envelope::chunk_views(chunks@);
    let mut i: usize = chunks.len();
    while i > 0
        invariant
            i <= chunks@.len(),
            views == envelope::chunk_views(chunks@),
            last_user(views, chunks@.len() as int) == last_user(views, i as int),
        decreases i,
    {
        assert(views[i - 1].message.role == chunks@[i - 1].message.role);
        if chunks[i - 1].message.role == MessageRole::User {
            return Some(i - 1);
        }
        i -= 1;
    }
    None
}

/// Whether each chunk belongs to one of the `turns` turns before the active one.
fn recent_marks(chunks: &Vec<MessageChunk>, active: usize, turns: u8) -> (r: Vec<bool>)
    requires
        active < chunks@.len(),
    ensures
        r@.len() == active,
        forall|i: int|
            0 <= i < active ==> #[trigger] r@[i] == is_recent(
                envelope::chunk_views(chunks@),
                i,
                active as int,
                turns,
            ),
{
    let ghost views = envelope::chunk_views(chunks@);
    let mut back: Vec<bool> = Vec::new();
    let mut turn: u8 = 0;
    let mut i: usize = active;
    while i > 0
        invariant
            i <= active < chunks@.len(),
            views == envelope::chunk_views(chunks@),
            turn == turn_back(views, i as int, active as int),
            back@.len() == active - i,
            forall|k: int|
                0 <= k < back@.len() ==> #[trigger] back@[k] == is_recent(
                    views,
                    active - 1 - k,
                    active as int,
                    turns,
                ),
        decreases i,
    {
        assert(views[i - 1].message.role == chunks@[i - 1].message.role);
        if chunks[i - 1].message.role == MessageRole::User && turn < 255 {
            turn = turn + 1;
        }
        i -= 1;
        back.push(1 <= turn && turn <= turns);
    }
    let mut out: Vec<bool> = Vec::new();
    let mut k: usize = active;
    while k > 0
        invariant
            k <= active,
            back@.len() == active,
            out@.len() == active - k,
            forall|j: int| 0 <= j < out@.len() ==> #[trigger] out@[j] == back@[active - 1 - j],
        decreases k,
    {
        k -= 1;
        out.push(back[k]);
    }
    out
}

fn raise(c: &MessageChunk, promoted: bool) -> (r: MessageChunk)
    ensures
        r@ == raised(c@, promoted),
{
    let mut out = c.copy();
    if promoted && out.layer == ContextLayer::Background {
        out.layer = ContextLayer::Relevant;
    }
    out
}

/// Raises chunks from the background in place. Nothing is ever lowered, and
/// critical and archived chunks stay what they are.
pub fn promote_soft_layers(chunks: &mut Vec<MessageChunk>, opts: SoftLayerPromotionOptions)
    ensures
        envelope::chunk_views(final(chunks)@) == promoted_chunks(
            envelope::chunk_views(old(chunks)@),
            opts,
        ),
{
    let ghost views = envelope::chunk_views(chunks@);
    if !opts.is_enabled() {
        assert(promoted_chunks(views, opts) =~= views);
        return;
    }
    let active: usize = match find_last_user(chunks) {
        Some(a) => a,
        None => {
            assert(promoted_chunks(views, opts) =~= views);
            return;
        },
    };
    let recent = recent_marks(chunks, active, opts.recent_turns);
    let question = normalized_tokens(message_plain_text(&chunks[active].message).as_str());
    assert(views[active as int].message == chunks@[active as int].message@);
    let mut out: Vec<MessageChunk> = Vec::new();
    let n: usize = chunks.len();
    let mut i: usize = 0;
    while i < n
        invariant
            i <= n,
            n == chunks@.len(),
            active < n,
            views == envelope::chunk_views(chunks@),
            last_user(views, views.len() as int) == Some(active as int),
            recent@.len() == active,
            forall|k: int|
                0 <= k < active ==> #[trigger] recent@[k] == is_recent(
                    views,
                    k,
                    active as int,
                    opts.recent_turns,
                ),
            question.well_formed(),
            question@ == tokens_in(plain_text(views[active as int].message)),
            out@.len() == i,
            forall|k: int|
                0 <= k < i ==> #[trigger] out@[k]@ == raised(
                    views[k],
                    is_promoted(views, k, opts),
                ),
        decreases n - i,
    {
        let c = &chunks[i];
        assert(views[i as int] == c@);
        let by_turn = i < active && recent[i];
        let by_words = if opts.tool_token_overlap_min > 0 && question.words.len() > 0
            && c.message.role == MessageRole::Tool {
            let own = normalized_tokens(message_plain_text(&c.message).as_str());
            own.shared(&question) >= opts.tool_token_overlap_min as usize
        } else {
            false
        };
        proof {
            lemma_word_set_len(question);
        }
        assert(by_turn == is_recent(views, i as int, active as int, opts.recent_turns));
        assert(by_words == (opts.tool_token_overlap_min > 0 && is_overlapping(
            views[i as int],
            question@,
            opts.tool_token_overlap_min,
        )));
        out.push(raise(c, by_turn || by_words));
        i += 1;
    }
    assert(envelope::chunk_views(out@) =~= promoted_chunks(views, opts));
    *chunks = out;
}

proof fn lemma_word_set_len(w: WordSet)
    requires
        w.well_formed(),
    ensures
        w@.len() == w.words@.len(),
{
    text::texts(w.words@).unique_seq_to_set();
}

/// Promotion never lowers a chunk, and leaves all but background chunks alone.
pub proof fn promotion_never_demotes(
    cs: Seq<envelope::ChunkView>,
    opts: SoftLayerPromotionOptions,
    i: int,
)
    requires
        0 <= i < cs.len(),
    ensures
        envelope::layer_rank(promoted_chunks(cs, opts)[i].layer) <= envelope::layer_rank(
            cs[i].layer,
        ),
        cs[i].layer != ContextLayer::Background ==> promoted_chunks(cs, opts)[i] == cs[i],
{
}

proof fn lemma_last_user_same(a: Seq<envelope::ChunkView>, b: Seq<envelope::ChunkView>, n: int)
    requires
        0 <= n <= a.len(),
        a.len() == b.len(),
        forall|i: int| 0 <= i < a.len() ==> (#[trigger] a[i]).message == b[i].message,
    ensures
        last_user(a, n) == last_user(b, n),
    decreases n,
{
    if n > 0 {
        assert(a[n - 1].message == b[n - 1].message);
        lemma_last_user_same(a, b, n - 1);
    }
}

proof fn lemma_users_same(
    a: Seq<envelope::ChunkView>,
    b: Seq<envelope::ChunkView>,
    i: int,
    end: int,
)
    requires
        0 <= i,
        end <= a.len(),
        a.len() == b.len(),
        forall|k: int| 0 <= k < a.len() ==> (#[trigger] a[k]).message == b[k].message,
    ensures
        users_between(a, i, end) == users_between(b, i, end),
    decreases end - i,
{
    if i < end {
        assert(a[i].message == b[i].message);
        lemma_users_same(a, b, i + 1, end);
    }
}

proof fn lemma_last_user_bounds(cs: Seq<envelope::ChunkView>, n: int)
    requires
        0 <= n <= cs.len(),
    ensures
        last_user(cs, n) matches Some(a) ==> 0 <= a < n,
    decreases n,
{
    if n > 0 {
        lemma_last_user_bounds(cs, n - 1);
    }
}

/// Promoting twice does what promoting once does.
pub proof fn promotion_is_idempotent(
    cs: Seq<envelope::ChunkView>,
    opts: SoftLayerPromotionOptions,
)
    ensures
        promoted_chunks(promoted_chunks(cs, opts), opts) == promoted_chunks(cs, opts),
{
    let once = promoted_chunks(cs, opts);
    let twice = promoted_chunks(once, opts);
    lemma_last_user_same(cs, once, cs.len() as int);
    lemma_last_user_bounds(cs, cs.len() as int);
    assert forall|i: int| 0 <= i < cs.len() implies twice[i] == once[i] by {
        match last_user(cs, cs.len() as int) {
            Some(active) => {
                lemma_users_same(cs, once, i, active);
                assert(cs[active].message == once[active].message);
            },
            None => {},
        }
        assert(cs[i].message == once[i].message);
    }
    assert(twice =~= once);
}

/// Nothing but the layer of a chunk is ever changed, and the chunks keep their
/// places.
pub proof fn promotion_changes_the_layer_alone(
    cs: Seq<envelope::ChunkView>,
    opts: SoftLayerPromotionOptions,
    i: int,
)
    requires
        0 <= i < cs.len(),
    ensures
        promoted_chunks(cs, opts).len() == cs.len(),
        ({
            let r = promoted_chunks(cs, opts)[i];
            &&& r.message == cs[i].message
            &&& r.timestamp == cs[i].timestamp
            &&& r.chunk_id == cs[i].chunk_id
            &&& r.is_summary == cs[i].is_summary
            &&& r.layer == cs[i].layer || (cs[i].layer == ContextLayer::Background && r.layer
                == ContextLayer::Relevant)
        }),
{
}

/// The positions from `i` up to `end` of the users' messages.
pub open spec fn user_places(cs: Seq<envelope::ChunkView>, i: int, end: int) -> Set<int> {
    Set::new(|k: int| i <= k < end && cs[k].message.role == MessageRole::User)
}

proof fn lemma_users_counted(cs: Seq<envelope::ChunkView>, i: int, end: int)
    requires
        0 <= i,
        end <= cs.len(),
    ensures
        user_places(cs, i, end).finite(),
        user_places(cs, i, end).len() == users_between(cs, i, end),
    decreases end - i,
{
    if i >= end {
        assert(user_places(cs, i, end) =~= Set::empty());
    } else {
        lemma_users_counted(cs, i + 1, end);
        if cs[i].message.role == MessageRole::User {
            assert(user_places(cs, i, end) =~= user_places(cs, i + 1, end).insert(i));
        } else {
            assert(user_places(cs, i, end) =~= user_places(cs, i + 1, end));
        }
    }
}

proof fn lemma_last_user_at(cs: Seq<envelope::ChunkView>, n: int, active: int)
    requires
        0 <= active < n <= cs.len(),
        cs[active].message.role == MessageRole::User,
        forall|k: int| active < k < n ==> (#[trigger] cs[k]).message.role != MessageRole::User,
    ensures
        last_user(cs, n) == Some(active),
    decreases n,
{
    if active < n - 1 {
        assert(cs[n - 1].message.role != MessageRole::User);
        lemma_last_user_at(cs, n - 1, active);
    }
}

/// A background chunk that is no tool output is raised exactly where it belongs
/// to one of the turns asked for before the active one: as many users' messages
/// lie from it up to the active one.
pub proof fn recent_turns_are_raised(
    cs: Seq<envelope::ChunkView>,
    opts: SoftLayerPromotionOptions,
    active: int,
    i: int,
)
    requires
        0 <= active < cs.len(),
        cs[active].message.role == MessageRole::User,
        forall|k: int|
            active < k < cs.len() ==> (#[trigger] cs[k]).message.role != MessageRole::User,
        0 <= i < cs.len(),
        cs[i].layer == ContextLayer::Background,
        cs[i].message.role != MessageRole::Tool,
        opts.recent_turns < 255,
    ensures
        promoted_chunks(cs, opts)[i].layer == ContextLayer::Relevant <==> i < active && 1
            <= user_places(cs, i, active).len() <= opts.recent_turns,
{
    lemma_last_user_at(cs, cs.len() as int, active);
    lemma_users_counted(cs, i, active);
}

/// Tool output in the background that is in none of those turns is raised
/// exactly where overlap counts and it shares as many words as asked for with
/// the active question.
pub proof fn overlapping_tool_output_is_raised(
    cs: Seq<envelope::ChunkView>,
    opts: SoftLayerPromotionOptions,
    active: int,
    i: int,
)
    requires
        0 <= active < cs.len(),
        cs[active].message.role == MessageRole::User,
        forall|k: int|
            active < k < cs.len() ==> (#[trigger] cs[k]).message.role != MessageRole::User,
        0 <= i < cs.len(),
        cs[i].layer == ContextLayer::Background,
        cs[i].message.role == MessageRole::Tool,
        i > active || user_places(cs, i, active).len() == 0 || opts.recent_turns == 0,
    ensures
        ({
            let question = tokens_in(plain_text(cs[active].message));
            let own = tokens_in(plain_text(cs[i].message));
            promoted_chunks(cs, opts)[i].layer == ContextLayer::Relevant <==> {
                &&& opts.tool_token_overlap_min > 0
                &&& question.len() > 0
                &&& own.intersect(question).len() >= opts.tool_token_overlap_min
            }
        }),
{
    lemma_last_user_at(cs, cs.len() as int, active);
    lemma_users_counted(cs, i, active);
}

/// Nothing is raised where no message is a user's, or nothing is asked for.
pub proof fn nothing_is_raised_without_a_question(
    cs: Seq<envelope::ChunkView>,
    opts: SoftLayerPromotionOptions,
)
    requires
        (forall|k: int| 0 <= k < cs.len() ==> (#[trigger] cs[k]).message.role != MessageRole::User)
            || (opts.recent_turns == 0 && opts.tool_token_overlap_min == 0),
    ensures
        promoted_chunks(cs, opts) == cs,
{
    if forall|k: int| 0 <= k < cs.len() ==> (#[trigger] cs[k]).message.role != MessageRole::User {
        lemma_no_user(cs, cs.len() as int);
    }
    assert(promoted_chunks(cs, opts) =~= cs);
}

proof fn lemma_no_user(cs: Seq<envelope::ChunkView>, n: int)
    requires
        0 <= n <= cs.len(),
        forall|k: int| 0 <= k < cs.len() ==> (#[trigger] cs[k]).message.role != MessageRole::User,
    ensures
        last_user(cs, n) is None,
    decreases n,
{
    if n > 0 {
        assert(cs[n - 1].message.role != MessageRole::User);
        lemma_no_user(cs, n - 1);
    }
}

/// From `a` to `b` there is a run of letters and numbers that none of its
/// neighbours belongs to.
pub open spec fn is_run(s: Seq<char>, a: int, b: int) -> bool {
    &&& 0 <= a <= b <= s.len()
    &&& forall|i: int| a <= i < b ==> text::alphanumeric(#[trigger] s[i])
    &&& a > 0 ==> !text::alphanumeric(s[a - 1])
    &&& b < s.len() ==> !text::alphanumeric(s[b])
}

proof fn lemma_piece_is_run(s: Seq<char>, k: int) -> (r: (int, int))
    requires
        0 <= k < word_pieces(s).len(),
    ensures
        is_run(s, r.0, r.1),
        word_pieces(s)[k] == s.subrange(r.0, r.1),
        k == word_pieces(s).len() - 1 ==> r.1 == s.len(),
        k < word_pieces(s).len() - 1 ==> r.1 < s.len(),
    decreases s.len(),
{
    if s.len() == 0 {
        assert(s.subrange(0, 0) =~= Seq::empty());
        (0, 0)
    } else {
        let t = s.drop_last();
        let n = s.len() as int;
        let rest = word_pieces(t);
        lemma_some_piece(t);
        assert forall|i: int| 0 <= i < n - 1 implies t[i] == s[i] by {}
        if k == rest.len() {
            assert(s.subrange(n, n) =~= Seq::empty());
            (n, n)
        } else {
            let (a, b) = lemma_piece_is_run(t, k);
            if text::alphanumeric(s.last()) && k == rest.len() - 1 {
                assert(s.subrange(a, n) =~= t.subrange(a, n - 1).push(s.last()));
                assert forall|i: int| a <= i < n implies text::alphanumeric(#[trigger] s[i]) by {
                    if i < n - 1 {
                        assert(t[i] == s[i]);
                    }
                }
                (a, n)
            } else {
                assert(s.subrange(a, b) =~= t.subrange(a, b));
                assert forall|i: int| a <= i < b implies text::alphanumeric(#[trigger] s[i]) by {
                    assert(t[i] == s[i]);
                }
                (a, b)
            }
        }
    }
}

proof fn lemma_some_piece(s: Seq<char>)
    ensures
        word_pieces(s).len() > 0,
    decreases s.len(),
{
    if s.len() > 0 {
        lemma_some_piece(s.drop_last());
    }
}

proof fn lemma_run_is_piece(s: Seq<char>, a: int, b: int) -> (k: int)
    requires
        is_run(s, a, b),
        a < b,
    ensures
        0 <= k < word_pieces(s).len(),
        word_pieces(s)[k] == s.subrange(a, b),
        b < s.len() ==> k < word_pieces(s).len() - 1,
    decreases s.len(),
{
    let t = s.drop_last();
    let n = s.len() as int;
    let rest = word_pieces(t);
    lemma_some_piece(t);
    assert forall|i: int| 0 <= i < n - 1 implies t[i] == s[i] by {}
    if b == n {
        assert(text::alphanumeric(s[n - 1]));
        let k = rest.len() - 1;
        let (c, d) = lemma_piece_is_run(t, k);
        if c < a {
            assert(text::alphanumeric(t[a - 1]));
        }
        if c > a {
            assert(text::alphanumeric(s[c - 1]));
        }
        assert(s.subrange(a, b) =~= t.subrange(a, n - 1).push(s.last()));
        k
    } else {
        assert forall|i: int| a <= i < b implies text::alphanumeric(#[trigger] t[i]) by {
            assert(t[i] == s[i]);
        }
        let k = lemma_run_is_piece(t, a, b);
        assert(s.subrange(a, b) =~= t.subrange(a, b));
        if text::alphanumeric(s.last()) {
            assert(b < n - 1);
        }
        k
    }
}

/// The words of a text are its runs of letters and numbers that take at least
/// three bytes.
pub proof fn words_are_runs(s: Seq<char>, w: Seq<char>)
    requires
        w.len() > 0,
    ensures
        words_of(s).contains(w) <==> text::byte_len(w) >= 3 && exists|a: int, b: int| #[trigger]
            is_run(s, a, b) && a < b && w == s.subrange(a, b),
{
    let pieces = word_pieces(s);
    if words_of(s).contains(w) {
        assert(pieces.contains(w));
        let k = choose|k: int| 0 <= k < pieces.len() && pieces[k] == w;
        let (a, b) = lemma_piece_is_run(s, k);
        assert(is_run(s, a, b) && a < b && w == s.subrange(a, b));
    }
    if text::byte_len(w) >= 3 && exists|a: int, b: int| #[trigger]
        is_run(s, a, b) && a < b && w == s.subrange(a, b) {
        let (a, b) = choose|a: int, b: int| #[trigger]
            is_run(s, a, b) && a < b && w == s.subrange(a, b);
        let k = lemma_run_is_piece(s, a, b);
        assert(pieces[k] == w);
        assert(pieces.to_set().contains(w));
    }
}

/// The plain text of blocks is that of the text blocks, in order, with a space
/// between; other blocks add nothing.
pub proof fn text_blocks_are_read_in_order(m: message::MessageView, b: Seq<message::BlockView>, x: message::BlockView)
    requires
        m.content == message::ContentView::Blocks(b.push(x)),
    ensures
        ({
            let before = plain_text(
                message::MessageView { content: message::ContentView::Blocks(b), ..m },
            );
            plain_text(m) == (match x {
                message::BlockView::Text { text } => if exists|i: int|
                    0 <= i < b.len() && (#[trigger] b[i]) is Text {
                    before + " "@ + text
                } else {
                    text
                },
                _ => before,
            })
        }),
{
    let n = b.len() as int;
    lemma_block_texts_same(b, b.push(x), n);
    lemma_block_texts_some(b, n);
    let all = block_texts(b.push(x), n + 1);
    match x {
        message::BlockView::Text { text } => {
            assert(all == block_texts(b, n).push(text));
            assert(all.drop_last() =~= block_texts(b, n));
        },
        _ => {},
    }
}

proof fn lemma_block_texts_same(a: Seq<message::BlockView>, b: Seq<message::BlockView>, n: int)
    requires
        0 <= n <= a.len(),
        n <= b.len(),
        forall|i: int| 0 <= i < n ==> a[i] == b[i],
    ensures
        block_texts(a, n) == block_texts(b, n),
    decreases n,
{
    if n > 0 {
        lemma_block_texts_same(a, b, n - 1);
    }
}

proof fn lemma_block_texts_some(b: Seq<message::BlockView>, n: int)
    requires
        0 <= n <= b.len(),
    ensures
        block_texts(b, n).len() > 0 <==> exists|i: int| 0 <= i < n && (#[trigger] b[i]) is Text,
    decreases n,
{
    if n > 0 {
        lemma_block_texts_some(b, n - 1);
        if b[n - 1] is Text {
            assert(block_texts(b, n).len() > 0);
        }
    }
}

} // verus!
