//! Choosing which messages fit a budget, flat or by layer.

use crate::context::budget::{ContextBudget, ModelCapacity};
use crate::context::envelope;
use crate::context::envelope::{AssembleStrategy, ContextLayer, MessageChunk};
use crate::context::error::AssembleError;
use crate::context::token_estimate;
use crate::json;
use crate::json::JsonValue;
use crate::sorting;
use crate::text;
use crate::types::message;
use crate::types::message::{ContentBlock, Message, MessageContent, MessageRole};
use vstd::prelude::*;

verus! {

broadcast use vstd::string::group_string_axioms;

/// Options for keeping the newest messages that fit.
#[derive(Debug, Clone)]
pub struct AssembleOptions {
    pub budget: ContextBudget,
    pub capacity: ModelCapacity,
    /// Tool payloads longer than this many characters become `tool_placeholder`.
    pub tool_fold_threshold_chars: usize,
    pub tool_placeholder: String,
}

impl Default for AssembleOptions {
    fn default() -> (r: Self)
        ensures
            r.budget.max_input_tokens == 7_168,
            r.budget.reserve_output_tokens == 1_024,
            r.budget.min_tail_messages == 2,
            r.capacity.context_window == 8_192,
            r.capacity.max_output_tokens == 1_024,
            r.tool_fold_threshold_chars == 8_192,
            r.tool_placeholder@ == "[tool output truncated]"@,
    {
        AssembleOptions {
            budget: ContextBudget::from_capacity(ModelCapacity::unknown(), 2),
            capacity: ModelCapacity::unknown(),
            tool_fold_threshold_chars: 8_192,
            tool_placeholder: "[tool output truncated]".to_string(),
        }
    }
}

/// Options for filling a budget layer by layer.
#[derive(Debug, Clone)]
pub struct LayeredAssembleOptions {
    pub budget: ContextBudget,
    pub strategy: AssembleStrategy,
    /// Tool payloads longer than this many characters become `tool_placeholder`.
    pub tool_fold_threshold_chars: usize,
    pub tool_placeholder: String,
}

impl Default for LayeredAssembleOptions {
    fn default() -> (r: Self)
        ensures
            r.budget.max_input_tokens == 7_168,
            r.budget.reserve_output_tokens == 1_024,
            r.budget.min_tail_messages == 2,
            r.strategy == AssembleStrategy::Chat,
            r.tool_fold_threshold_chars == 8_192,
            r.tool_placeholder@ == "[tool output truncated]"@,
    {
        LayeredAssembleOptions {
            budget: ContextBudget::from_capacity(ModelCapacity::unknown(), 2),
            strategy: AssembleStrategy::Chat,
            tool_fold_threshold_chars: 8_192,
            tool_placeholder: "[tool output truncated]".to_string(),
        }
    }
}

/// What was assembled.
#[derive(Debug, Clone)]
pub struct AssembleReport {
    pub messages: Vec<Message>,
    /// How many messages were left out: at the front, or anywhere by layer.
    pub dropped_prefix: usize,
    pub folded_tool_segments: usize,
}

/// A count that stops at the largest `usize`.
pub open spec fn capped_count(n: nat) -> usize {
    if n > usize::MAX {
        usize::MAX
    } else {
        n as usize
    }
}

fn count_one(n: usize) -> (r: usize)
    ensures
        r == capped_count((n + 1) as nat),
{
    if n == usize::MAX {
        n
    } else {
        n + 1
    }
}

/// The block holds a tool result whose JSON has more characters than the threshold.
pub open spec fn block_folds(b: message::BlockView, threshold: usize) -> bool {
    match b {
        message::BlockView::ToolResult { tool_use_id: _, content } => json::json_text(
            content,
        ).len() > threshold,
        _ => false,
    }
}

/// The block with an oversized tool result replaced.
pub open spec fn folded_block(
    b: message::BlockView,
    threshold: usize,
    placeholder: Seq<char>,
) -> message::BlockView {
    match b {
        message::BlockView::ToolResult { tool_use_id, content: _ } => if block_folds(b, threshold) {
            message::BlockView::ToolResult { tool_use_id, content: json::Json::Str(placeholder) }
        } else {
            b
        },
        _ => b,
    }
}

/// How many of the first `n` blocks are replaced.
pub open spec fn blocks_folded(b: Seq<message::BlockView>, threshold: usize, n: int) -> nat
    decreases n,
{
    if n <= 0 {
        0
    } else {
        blocks_folded(b, threshold, n - 1) + (if block_folds(b[n - 1], threshold) {
            1nat
        } else {
            0
        })
    }
}

/// The message with oversized tool output replaced.
pub open spec fn folded_message(
    m: message::MessageView,
    threshold: usize,
    placeholder: Seq<char>,
) -> message::MessageView {
    match m.content {
        message::ContentView::Text(t) => if m.role == MessageRole::Tool && t.len() > threshold {
            message::MessageView { content: message::ContentView::Text(placeholder), ..m }
        } else {
            m
        },
        message::ContentView::Blocks(b) => message::MessageView {
            content: message::ContentView::Blocks(
                Seq::new(b.len(), |i: int| folded_block(b[i], threshold, placeholder)),
            ),
            ..m
        },
    }
}

/// How many pieces of tool output of a message are replaced.
pub open spec fn message_folds(m: message::MessageView, threshold: usize) -> nat {
    match m.content {
        message::ContentView::Text(t) => if m.role == MessageRole::Tool && t.len() > threshold {
            1
        } else {
            0
        },
        message::ContentView::Blocks(b) => blocks_folded(b, threshold, b.len() as int),
    }
}

/// The messages with oversized tool output replaced.
pub open spec fn folded_messages(
    ms: Seq<message::MessageView>,
    threshold: usize,
    placeholder: Seq<char>,
) -> Seq<message::MessageView> {
    Seq::new(ms.len(), |i: int| folded_message(ms[i], threshold, placeholder))
}

/// How many pieces of tool output of the first `n` messages are replaced.
pub open spec fn messages_folded(ms: Seq<message::MessageView>, threshold: usize, n: int) -> nat
    decreases n,
{
    if n <= 0 {
        0
    } else {
        messages_folded(ms, threshold, n - 1) + message_folds(ms[n - 1], threshold)
    }
}

fn fold_block(b: &ContentBlock, threshold: usize, placeholder: &str) -> (r: (ContentBlock, bool))
    ensures
        r.0@ == folded_block(b@, threshold, placeholder@),
        r.1 == block_folds(b@, threshold),
{
    match b {
        ContentBlock::ToolResult { tool_use_id, content } => {
            let serialized = json::render(content);
            if serialized.as_str().unicode_len() > threshold {
                (
                    ContentBlock::ToolResult {
                        tool_use_id: tool_use_id.clone(),
                        content: JsonValue::string(placeholder),
                    },
                    true,
                )
            } else {
                (b.copy(), false)
            }
        },
        other => (other.copy(), false),
    }
}

/// The message with oversized tool output replaced; `count` grows by the pieces replaced.
fn fold_message(m: &Message, threshold: usize, placeholder: &str, count: usize) -> (r: (
    Message,
    usize,
))
    ensures
        r.0@ == folded_message(m@, threshold, placeholder@),
        r.1 == capped_count(count as nat + message_folds(m@, threshold)),
{
    match &m.content {
        MessageContent::Text(t) => {
            if m.role == MessageRole::Tool && t.as_str().unicode_len() > threshold {
                let out = Message {
                    role: m.role,
                    content: MessageContent::Text(placeholder.to_string()),
                    tool_call_id: message::copy_opt(&m.tool_call_id),
                };
                (out, count_one(count))
            } else {
                (m.copy(), count)
            }
        },
        MessageContent::Blocks(blocks) => {
            let ghost views = message::block_views(blocks@);
            let mut out: Vec<ContentBlock> = Vec::new();
            let mut n: usize = count;
            let mut i: usize = 0;
            while i < blocks.len()
                invariant
                    i <= blocks@.len(),
                    views == message::block_views(blocks@),
                    out@.len() == i,
                    forall|k: int|
                        0 <= k < i ==> #[trigger] out@[k]@ == folded_block(
                            blocks@[k]@,
                            threshold,
                            placeholder@,
                        ),
                    n == capped_count(count as nat + blocks_folded(views, threshold, i as int)),
                decreases blocks@.len() - i,
            {
                assert(views[i as int] == blocks@[i as int]@);
                let (b, folded) = fold_block(&blocks[i], threshold, placeholder);
                out.push(b);
                if folded {
                    n = count_one(n);
                }
                i += 1;
            }
            let content = MessageContent::Blocks(out);
            proof {
                let want = Seq::new(
                    views.len(),
                    |i: int| folded_block(views[i], threshold, placeholder@),
                );
                assert(message::block_views(out@) =~= want);
            }
            let r = Message {
                role: m.role,
                content,
                tool_call_id: message::copy_opt(&m.tool_call_id),
            };
            (r, n)
        },
    }
}

/// The messages with oversized tool output replaced, and how many pieces were.
fn fold_oversized_tool_content(
    messages: &Vec<Message>,
    threshold: usize,
    placeholder: &str,
) -> (r: (Vec<Message>, usize))
    ensures
        message::message_views(r.0@) == folded_messages(
            message::message_views(messages@),
            threshold,
            placeholder@,
        ),
        r.1 == capped_count(
            messages_folded(
                message::message_views(messages@),
                threshold,
                messages@.len() as int,
            ),
        ),
{
    let ghost views = message::message_views(messages@);
    let mut out: Vec<Message> = Vec::new();
    let mut count: usize = 0;
    let mut i: usize = 0;
    while i < messages.len()
        invariant
            i <= messages@.len(),
            views == message::message_views(messages@),
            out@.len() == i,
            forall|k: int|
                0 <= k < i ==> #[trigger] out@[k]@ == folded_message(
                    messages@[k]@,
                    threshold,
                    placeholder@,
                ),
            count == capped_count(messages_folded(views, threshold, i as int)),
        decreases messages@.len() - i,
    {
        assert(views[i as int] == messages@[i as int]@);
        let (m, n) = fold_message(&messages[i], threshold, placeholder, count);
        out.push(m);
        count = n;
        i += 1;
    }
    assert(message::message_views(out@) =~= folded_messages(views, threshold, placeholder@));
    (out, count)
}

/// Where the kept suffix starts, scanning back from the end: `start` and
/// `used` say what is kept so far, and message `i - 1` is next.
pub open spec fn scan_back(
    ms: Seq<message::MessageView>,
    budget: u32,
    min_tail: usize,
    i: int,
    start: int,
    used: u32,
) -> int
    decreases i,
{
    if i <= 0 {
        start
    } else {
        let n = ms.len() as int;
        let cost = token_estimate::message_tokens(ms[i - 1]);
        let next = token_estimate::capped(used + cost);
        if n - start >= min_tail && start < n && next > budget {
            start
        } else if start == n && cost > budget && i == n {
            i - 1
        } else {
            scan_back(ms, budget, min_tail, i - 1, i - 1, next)
        }
    }
}

/// The first position at or after `s` that holds no tool message.
pub open spec fn skip_tools(ms: Seq<message::MessageView>, s: int) -> int
    decreases ms.len() - s,
{
    if 0 <= s < ms.len() && ms[s].role == MessageRole::Tool {
        skip_tools(ms, s + 1)
    } else {
        s
    }
}

/// The last position before `s` that holds an assistant's message.
pub open spec fn last_assistant(ms: Seq<message::MessageView>, s: int) -> Option<int>
    decreases s,
{
    if s <= 0 {
        None
    } else if ms[s - 1].role == MessageRole::Assistant {
        Some(s - 1)
    } else {
        last_assistant(ms, s - 1)
    }
}

/// Tokens of the messages from `s` up to `e`.
pub open spec fn window_tokens(ms: Seq<message::MessageView>, s: int, e: int) -> int
    decreases e - s,
{
    if s >= e {
        0
    } else {
        window_tokens(ms, s, e - 1) + token_estimate::message_tokens(ms[e - 1])
    }
}

/// A window of nothing but tool messages reaches back to the assistant's
/// message that asked for them where that fits, and is empty where it does not.
pub open spec fn with_tool_chain(ms: Seq<message::MessageView>, start: int, budget: u32) -> int {
    let n = ms.len() as int;
    if start <= 0 || start >= n || ms[n - 1].role != MessageRole::Tool || skip_tools(ms, start)
        < n {
        start
    } else {
        match last_assistant(ms, start) {
            Some(j) => if token_estimate::capped(window_tokens(ms, j, n)) <= budget {
                j
            } else {
                skip_tools(ms, start)
            },
            None => skip_tools(ms, start),
        }
    }
}

/// Where the kept suffix starts.
pub open spec fn suffix_start(ms: Seq<message::MessageView>, budget: u32, min_tail: usize) -> int {
    let n = ms.len() as int;
    let scanned = scan_back(ms, budget, min_tail, n, n, 0);
    with_tool_chain(ms, skip_tools(ms, scanned), budget)
}

fn trim_leading_orphan_tools(messages: &Vec<Message>, start: usize) -> (r: usize)
    requires
        start <= messages@.len(),
    ensures
        r == skip_tools(message::message_views(messages@), start as int),
        start <= r <= messages@.len(),
{
    let ghost views = message::message_views(messages@);
    let mut s: usize = start;
    while s < messages.len() && messages[s].role == MessageRole::Tool
        invariant
            start <= s <= messages@.len(),
            views == message::message_views(messages@),
            skip_tools(views, start as int) == skip_tools(views, s as int),
        decreases messages@.len() - s,
    {
        assert(views[s as int].role == messages@[s as int].role);
        s += 1;
    }
    proof {
        if s < messages@.len() {
            assert(views[s as int].role == messages@[s as int].role);
        }
    }
    s
}

fn extend_for_tool_chain(messages: &Vec<Message>, start: usize, budget: u32) -> (r: usize)
    requires
        start <= messages@.len(),
    ensures
        r == with_tool_chain(message::message_views(messages@), start as int, budget),
        r <= messages@.len(),
{
    let ghost views = message::message_views(messages@);
    let end: usize = messages.len();
    if start == 0 || start >= end {
        return start;
    }
    assert(views[end - 1].role == messages@[end - 1].role);
    if messages[end - 1].role != MessageRole::Tool {
        return start;
    }
    let after: usize = trim_leading_orphan_tools(messages, start);
    if after < end {
        return start;
    }
    let mut j: usize = start;
    while j > 0
        invariant
            j <= start < end,
            end == messages@.len(),
            views == message::message_views(messages@),
            after == skip_tools(views, start as int),
            after <= end,
            last_assistant(views, start as int) == last_assistant(views, j as int),
            with_tool_chain(views, start as int, budget) == (match last_assistant(
                views,
                start as int,
            ) {
                Some(j) => if token_estimate::capped(window_tokens(views, j, end as int))
                    <= budget {
                    j
                } else {
                    after as int
                },
                None => after as int,
            }),
        decreases j,
    {
        assert(views[j - 1].role == messages@[j - 1].role);
        j -= 1;
        if messages[j].role == MessageRole::Assistant {
            let cost: u32 = sum_tokens(messages, j);
            if cost <= budget {
                return j;
            }
            return after;
        }
    }
    after
}

fn sum_tokens(messages: &Vec<Message>, from: usize) -> (r: u32)
    requires
        from <= messages@.len(),
    ensures
        r == token_estimate::capped(
            window_tokens(
                message::message_views(messages@),
                from as int,
                messages@.len() as int,
            ),
        ),
{
    let ghost views = message::message_views(messages@);
    let mut sum: u32 = 0;
    let mut i: usize = from;
    while i < messages.len()
        invariant
            from <= i <= messages@.len(),
            views == message::message_views(messages@),
            sum == token_estimate::capped(window_tokens(views, from as int, i as int)),
            window_tokens(views, from as int, i as int) >= 0,
        decreases messages@.len() - i,
    {
        assert(views[i as int] == messages@[i as int]@);
        sum = token_estimate::add_capped(
            sum,
            token_estimate::estimate_message_tokens(&messages[i]),
        );
        i += 1;
    }
    sum
}

fn select_suffix_start(messages: &Vec<Message>, budget: u32, min_tail: usize) -> (r: usize)
    ensures
        r == suffix_start(message::message_views(messages@), budget, min_tail),
        r <= messages@.len(),
{
    let ghost views = message::message_views(messages@);
    let n: usize = messages.len();
    let mut start: usize = n;
    let mut used: u32 = 0;
    let mut i: usize = n;
    let mut scanning = true;
    let ghost scanned = scan_back(views, budget, min_tail, n as int, n as int, 0);
    while scanning && i > 0
        invariant
            i <= n,
            start <= n,
            n == messages@.len(),
            views == message::message_views(messages@),
            scanning ==> scanned == scan_back(
                views,
                budget,
                min_tail,
                i as int,
                start as int,
                used,
            ),
            !scanning ==> scanned == start,
        decreases i,
    {
        assert(views[i - 1] == messages@[i - 1]@);
        let cost: u32 = token_estimate::estimate_message_tokens(&messages[i - 1]);
        let next: u32 = token_estimate::add_capped(used, cost);
        if n - start >= min_tail && start < n && next > budget {
            scanning = false;
        } else if start == n && cost > budget && i == n {
            start = i - 1;
            scanning = false;
        } else {
            start = i - 1;
            used = next;
        }
        i -= 1;
    }
    let trimmed: usize = trim_leading_orphan_tools(messages, start);
    extend_for_tool_chain(messages, trimmed, budget)
}

/// The chunks with oversized tool output replaced.
pub open spec fn folded_chunks(
    cs: Seq<envelope::ChunkView>,
    threshold: usize,
    placeholder: Seq<char>,
) -> Seq<envelope::ChunkView> {
    Seq::new(
        cs.len(),
        |i: int|
            envelope::ChunkView {
                message: folded_message(cs[i].message, threshold, placeholder),
                ..cs[i]
            },
    )
}

/// The messages of chunks, in order.
pub open spec fn chunk_messages(cs: Seq<envelope::ChunkView>) -> Seq<message::MessageView> {
    Seq::new(cs.len(), |i: int| cs[i].message)
}

/// The critical ones of the first `n` chunks.
pub open spec fn critical_chunks(cs: Seq<envelope::ChunkView>, n: int) -> Seq<envelope::ChunkView>
    decreases n,
{
    if n <= 0 {
        Seq::empty()
    } else {
        let rest = critical_chunks(cs, n - 1);
        if envelope::critical(cs[n - 1].layer) {
            rest.push(cs[n - 1])
        } else {
            rest
        }
    }
}

/// Those of the first `n` chunks that belong to the layer.
pub open spec fn layer_chunks(
    cs: Seq<envelope::ChunkView>,
    layer: ContextLayer,
    n: int,
) -> Seq<envelope::ChunkView>
    decreases n,
{
    if n <= 0 {
        Seq::empty()
    } else {
        let rest = layer_chunks(cs, layer, n - 1);
        if cs[n - 1].layer == layer {
            rest.push(cs[n - 1])
        } else {
            rest
        }
    }
}

/// Tokens of the first `n` chunks.
pub open spec fn chunks_tokens(cs: Seq<envelope::ChunkView>, n: int) -> int
    decreases n,
{
    if n <= 0 {
        0
    } else {
        chunks_tokens(cs, n - 1) + token_estimate::message_tokens(cs[n - 1].message)
    }
}

/// What a candidate of a soft layer is ordered by: in the background the
/// newest come first; elsewhere summaries come first, then the oldest.
pub open spec fn candidate_key(layer: ContextLayer, c: envelope::ChunkView) -> sorting::KeyView {
    if layer == ContextLayer::Background {
        sorting::KeyView {
            first: (u64::MAX - c.timestamp) as u64,
            second: 0,
            text: Seq::empty(),
        }
    } else {
        sorting::KeyView {
            first: if c.is_summary {
                0
            } else {
                1
            },
            second: c.timestamp,
            text: Seq::empty(),
        }
    }
}

/// The keys of the candidates of a soft layer.
pub open spec fn candidate_keys(layer: ContextLayer, cs: Seq<envelope::ChunkView>) -> Seq<
    sorting::KeyView,
> {
    Seq::new(cs.len(), |i: int| candidate_key(layer, cs[i]))
}

/// The candidates of a soft layer in the order they are tried.
pub open spec fn candidates(cs: Seq<envelope::ChunkView>, layer: ContextLayer) -> Seq<
    envelope::ChunkView,
> {
    let own = layer_chunks(cs, layer, cs.len() as int);
    sorting::sorted_by(own, candidate_keys(layer, own))
}

/// The chunks picked so far and the tokens they take.
pub struct Fill {
    pub picked: Seq<envelope::ChunkView>,
    pub used: u32,
}

/// The fill after the first `n` candidates have been tried: each is picked
/// where it still fits.
pub open spec fn filled_with(
    f: Fill,
    cands: Seq<envelope::ChunkView>,
    budget: u32,
    n: int,
) -> Fill
    decreases n,
{
    if n <= 0 {
        f
    } else {
        let g = filled_with(f, cands, budget, n - 1);
        let next = token_estimate::capped(
            g.used + token_estimate::message_tokens(cands[n - 1].message),
        );
        if next > budget {
            g
        } else {
            Fill { picked: g.picked.push(cands[n - 1]), used: next }
        }
    }
}

/// The fill after all candidates of a layer have been tried.
pub open spec fn filled_layer(
    f: Fill,
    cs: Seq<envelope::ChunkView>,
    layer: ContextLayer,
    budget: u32,
) -> Fill {
    let cands = candidates(cs, layer);
    filled_with(f, cands, budget, cands.len() as int)
}

/// Tokens of the critical chunks.
pub open spec fn critical_tokens(cs: Seq<envelope::ChunkView>) -> u32 {
    let crit = critical_chunks(cs, cs.len() as int);
    token_estimate::capped(chunks_tokens(crit, crit.len() as int))
}

/// The chunks picked for a budget: the critical ones, then relevant material,
/// summaries and background as far as they fit.
pub open spec fn picked_chunks(cs: Seq<envelope::ChunkView>, budget: u32) -> Seq<
    envelope::ChunkView,
> {
    let f = Fill {
        picked: critical_chunks(cs, cs.len() as int),
        used: critical_tokens(cs),
    };
    let f = filled_layer(f, cs, ContextLayer::Relevant, budget);
    let f = filled_layer(f, cs, ContextLayer::Summary, budget);
    filled_layer(f, cs, ContextLayer::Background, budget).picked
}

/// The keys that put picked chunks in order: by time, layer and identifier.
pub open spec fn output_keys(cs: Seq<envelope::ChunkView>) -> Seq<sorting::KeyView> {
    Seq::new(
        cs.len(),
        |i: int|
            sorting::KeyView {
                first: cs[i].timestamp,
                second: envelope::layer_rank(cs[i].layer) as u64,
                text: cs[i].chunk_id,
            },
    )
}

/// The picked chunks in the order they are sent.
pub open spec fn output_chunks(cs: Seq<envelope::ChunkView>, budget: u32) -> Seq<
    envelope::ChunkView,
> {
    let picked = picked_chunks(cs, budget);
    sorting::sorted_by(picked, output_keys(picked))
}

fn fold_chunks(chunks: &Vec<MessageChunk>, threshold: usize, placeholder: &str) -> (r: (
    Vec<MessageChunk>,
    usize,
))
    ensures
        envelope::chunk_views(r.0@) == folded_chunks(
            envelope::chunk_views(chunks@),
            threshold,
            placeholder@,
        ),
        r.1 == capped_count(
            messages_folded(
                chunk_messages(envelope::chunk_views(chunks@)),
                threshold,
                chunks@.len() as int,
            ),
        ),
{
    let ghost views = envelope::chunk_views(chunks@);
    let ghost ms = chunk_messages(views);
    let mut out: Vec<MessageChunk> = Vec::new();
    let mut count: usize = 0;
    let mut i: usize = 0;
    while i < chunks.len()
        invariant
            i <= chunks@.len(),
            views == envelope::chunk_views(chunks@),
            ms == chunk_messages(views),
            out@.len() == i,
            forall|k: int|
                0 <= k < i ==> #[trigger] out@[k]@ == (envelope::ChunkView {
                    message: folded_message(chunks@[k]@.message, threshold, placeholder@),
                    ..chunks@[k]@
                }),
            count == capped_count(messages_folded(ms, threshold, i as int)),
        decreases chunks@.len() - i,
    {
        let c = &chunks[i];
        assert(ms[i as int] == c@.message);
        let (m, n) = fold_message(&c.message, threshold, placeholder, count);
        out.push(
            MessageChunk {
                layer: c.layer,
                timestamp: c.timestamp,
                message: m,
                is_summary: c.is_summary,
                chunk_id: c.chunk_id.clone(),
            },
        );
        count = n;
        i += 1;
    }
    assert(envelope::chunk_views(out@) =~= folded_chunks(views, threshold, placeholder@));
    (out, count)
}

fn pick_critical(work: &Vec<MessageChunk>) -> (r: (Vec<MessageChunk>, u32))
    ensures
        envelope::chunk_views(r.0@) == critical_chunks(
            envelope::chunk_views(work@),
            work@.len() as int,
        ),
        r.1 == critical_tokens(envelope::chunk_views(work@)),
{
    let ghost views = envelope::chunk_views(work@);
    let mut out: Vec<MessageChunk> = Vec::new();
    let mut used: u32 = 0;
    let mut i: usize = 0;
    assert(envelope::chunk_views(out@) =~= Seq::empty());
    while i < work.len()
        invariant
            i <= work@.len(),
            views == envelope::chunk_views(work@),
            envelope::chunk_views(out@) == critical_chunks(views, i as int),
            used == token_estimate::capped(
                chunks_tokens(critical_chunks(views, i as int), out@.len() as int),
            ),
            chunks_tokens(critical_chunks(views, i as int), out@.len() as int) >= 0,
        decreases work@.len() - i,
    {
        assert(views[i as int] == work@[i as int]@);
        if work[i].layer.is_critical() {
            let c = work[i].copy();
            let ghost o0 = envelope::chunk_views(out@);
            let ghost cv = c@;
            used = token_estimate::add_capped(
                used,
                token_estimate::estimate_message_tokens(&c.message),
            );
            out.push(c);
            proof {
                assert(envelope::chunk_views(out@) =~= o0.push(cv));
                lemma_tokens_prefix(o0, o0.push(cv), o0.len() as int);
            }
        }
        i += 1;
    }
    (out, used)
}

proof fn lemma_tokens_prefix(a: Seq<envelope::ChunkView>, b: Seq<envelope::ChunkView>, n: int)
    requires
        0 <= n <= a.len(),
        n <= b.len(),
        forall|i: int| 0 <= i < n ==> #[trigger] a[i] == b[i],
    ensures
        chunks_tokens(a, n) == chunks_tokens(b, n),
    decreases n,
{
    if n > 0 {
        lemma_tokens_prefix(a, b, n - 1);
    }
}

fn layer_candidates(work: &Vec<MessageChunk>, layer: ContextLayer) -> (r: Vec<MessageChunk>)
    ensures
        envelope::chunk_views(r@) == candidates(envelope::chunk_views(work@), layer),
{
    let ghost views = envelope::chunk_views(work@);
    let mut own: Vec<MessageChunk> = Vec::new();
    let mut keys: Vec<sorting::SortKey> = Vec::new();
    let mut i: usize = 0;
    assert(envelope::chunk_views(own@) =~= Seq::empty());
    assert(sorting::key_views(keys@) =~= candidate_keys(layer, envelope::chunk_views(own@)));
    while i < work.len()
        invariant
            i <= work@.len(),
            views == envelope::chunk_views(work@),
            envelope::chunk_views(own@) == layer_chunks(views, layer, i as int),
            sorting::key_views(keys@) == candidate_keys(layer, envelope::chunk_views(own@)),
        decreases work@.len() - i,
    {
        assert(views[i as int] == work@[i as int]@);
        if work[i].layer == layer {
            let c = work[i].copy();
            let key = if layer == ContextLayer::Background {
                sorting::SortKey {
                    first: u64::MAX - c.timestamp,
                    second: 0,
                    text: String::new(),
                }
            } else {
                let first: u64 = if c.is_summary {
                    0
                } else {
                    1
                };
                sorting::SortKey { first, second: c.timestamp, text: String::new() }
            };
            assert(key.text@ =~= Seq::empty());
            let ghost o0 = envelope::chunk_views(own@);
            let ghost k0 = sorting::key_views(keys@);
            let ghost cv = c@;
            let ghost kv = key@;
            own.push(c);
            keys.push(key);
            assert(envelope::chunk_views(own@) =~= o0.push(cv));
            assert(sorting::key_views(keys@) =~= k0.push(kv));
            assert(k0.push(kv) =~= candidate_keys(layer, o0.push(cv)));
        }
        i += 1;
    }
    reorder(&own, &keys)
}

/// The chunks in the order of their keys.
fn reorder(chunks: &Vec<MessageChunk>, keys: &Vec<sorting::SortKey>) -> (r: Vec<MessageChunk>)
    requires
        keys@.len() == chunks@.len(),
    ensures
        envelope::chunk_views(r@) == sorting::sorted_by(
            envelope::chunk_views(chunks@),
            sorting::key_views(keys@),
        ),
{
    let order = sorting::sorted_order(keys);
    let mut out: Vec<MessageChunk> = Vec::new();
    let mut i: usize = 0;
    while i < order.len()
        invariant
            i <= order@.len(),
            keys@.len() == chunks@.len(),
            sorting::is_stable_order(order@, sorting::key_views(keys@), keys@.len()),
            out@.len() == i,
            forall|k: int| 0 <= k < i ==> #[trigger] out@[k]@ == chunks@[order@[k] as int]@,
        decreases order@.len() - i,
    {
        assert(order@[i as int] < keys@.len());
        out.push(chunks[order[i]].copy());
        i += 1;
    }
    proof {
        let want = sorting::sorted_by(envelope::chunk_views(chunks@), sorting::key_views(keys@));
        assert forall|k: int| 0 <= k < order@.len() implies envelope::chunk_views(out@)[k]
            == want[k] by {
            assert(order@[k] < keys@.len());
        }
        assert(envelope::chunk_views(out@) =~= want);
    }
    out
}

fn fill_layer(
    work: &Vec<MessageChunk>,
    layer: ContextLayer,
    budget: u32,
    selected: &mut Vec<MessageChunk>,
    used: u32,
) -> (r: u32)
    ensures
        ({
            let f = filled_layer(
                Fill { picked: envelope::chunk_views(old(selected)@), used },
                envelope::chunk_views(work@),
                layer,
                budget,
            );
            envelope::chunk_views(final(selected)@) == f.picked && r == f.used
        }),
{
    let cands = layer_candidates(work, layer);
    let ghost views = envelope::chunk_views(cands@);
    let ghost f0 = Fill { picked: envelope::chunk_views(selected@), used };
    let mut now: u32 = used;
    let mut i: usize = 0;
    while i < cands.len()
        invariant
            i <= cands@.len(),
            views == envelope::chunk_views(cands@),
            envelope::chunk_views(selected@) == filled_with(f0, views, budget, i as int).picked,
            now == filled_with(f0, views, budget, i as int).used,
        decreases cands@.len() - i,
    {
        assert(views[i as int] == cands@[i as int]@);
        let cost: u32 = token_estimate::estimate_message_tokens(&cands[i].message);
        let next: u32 = token_estimate::add_capped(now, cost);
        if next <= budget {
            let c = cands[i].copy();
            let ghost s0 = envelope::chunk_views(selected@);
            let ghost cv = c@;
            selected.push(c);
            assert(envelope::chunk_views(selected@) =~= s0.push(cv));
            now = next;
        }
        i += 1;
    }
    now
}

fn order_selected(selected: &Vec<MessageChunk>) -> (r: Vec<Message>)
    ensures
        message::message_views(r@) == chunk_messages(
            sorting::sorted_by(
                envelope::chunk_views(selected@),
                output_keys(envelope::chunk_views(selected@)),
            ),
        ),
{
    let ghost views = envelope::chunk_views(selected@);
    let mut keys: Vec<sorting::SortKey> = Vec::new();
    let mut i: usize = 0;
    while i < selected.len()
        invariant
            i <= selected@.len(),
            views == envelope::chunk_views(selected@),
            keys@.len() == i,
            forall|k: int| 0 <= k < i ==> #[trigger] keys@[k]@ == output_keys(views)[k],
        decreases selected@.len() - i,
    {
        let c = &selected[i];
        keys.push(
            sorting::SortKey {
                first: c.timestamp,
                second: c.layer.as_u8() as u64,
                text: c.chunk_id.clone(),
            },
        );
        assert(keys@[i as int]@ == output_keys(views)[i as int]);
        i += 1;
    }
    assert(sorting::key_views(keys@) =~= output_keys(views));
    let ordered = reorder(selected, &keys);
    let ghost want = envelope::chunk_views(ordered@);
    let mut out: Vec<Message> = Vec::new();
    let mut j: usize = 0;
    while j < ordered.len()
        invariant
            j <= ordered@.len(),
            want == envelope::chunk_views(ordered@),
            out@.len() == j,
            forall|k: int| 0 <= k < j ==> #[trigger] out@[k]@ == want[k].message,
        decreases ordered@.len() - j,
    {
        out.push(ordered[j].message.copy());
        j += 1;
    }
    assert(message::message_views(out@) =~= chunk_messages(want));
    out
}

/// Assembles contexts.
#[derive(Debug)]
pub struct MessageAssembler;

impl MessageAssembler {
    /// Keeps the newest messages that fit, never starting with the output of a
    /// tool whose call was left out.
    pub fn assemble(messages: &Vec<Message>, options: &AssembleOptions) -> (r: Result<
        AssembleReport,
        AssembleError,
    >)
        ensures
            match r {
                Err(e) => messages@.len() == 0 && e == AssembleError::EmptyInput,
                Ok(report) => {
                    let folded = folded_messages(
                        message::message_views(messages@),
                        options.tool_fold_threshold_chars,
                        options.tool_placeholder@,
                    );
                    let start = suffix_start(
                        folded,
                        options.budget.max_input_tokens,
                        options.budget.min_tail_messages,
                    );
                    &&& messages@.len() > 0
                    &&& 0 <= start <= folded.len()
                    &&& message::message_views(report.messages@) == folded.subrange(
                        start,
                        folded.len() as int,
                    )
                    &&& report.dropped_prefix == start
                    &&& report.folded_tool_segments == capped_count(
                        messages_folded(
                            message::message_views(messages@),
                            options.tool_fold_threshold_chars,
                            messages@.len() as int,
                        ),
                    )
                },
            },
    {
        if messages.len() == 0 {
            return Err(AssembleError::EmptyInput);
        }
        let (working, folded_tool_segments) = fold_oversized_tool_content(
            messages,
            options.tool_fold_threshold_chars,
            options.tool_placeholder.as_str(),
        );
        let ghost folded = message::message_views(working@);
        assert(folded.len() == working@.len());
        let start: usize = select_suffix_start(
            &working,
            options.budget.max_input_tokens,
            options.budget.min_tail_messages,
        );
        let mut kept: Vec<Message> = Vec::new();
        let mut i: usize = start;
        while i < working.len()
            invariant
                start <= i <= working@.len(),
                kept@.len() == i - start,
                forall|k: int|
                    0 <= k < kept@.len() ==> #[trigger] kept@[k]@ == working@[start + k]@,
            decreases working@.len() - i,
        {
            kept.push(working[i].copy());
            i += 1;
        }
        assert(message::message_views(kept@) =~= folded.subrange(
            start as int,
            folded.len() as int,
        ));
        Ok(AssembleReport { messages: kept, dropped_prefix: start, folded_tool_segments })
    }

    /// Fills the budget layer by layer. Critical layers must fit; the archive
    /// never becomes part of the payload.
    pub fn assemble_layered(
        chunks: &Vec<MessageChunk>,
        options: &LayeredAssembleOptions,
    ) -> (r: Result<AssembleReport, AssembleError>)
        ensures
            ({
                let work = folded_chunks(
                    envelope::chunk_views(chunks@),
                    options.tool_fold_threshold_chars,
                    options.tool_placeholder@,
                );
                let budget = options.budget.max_input_tokens;
                match r {
                    Err(e) => if chunks@.len() == 0 {
                        e == AssembleError::EmptyInput
                    } else {
                        critical_tokens(work) > budget && e
                            == (AssembleError::HardBudgetViolation {
                            critical_tokens: critical_tokens(work),
                            budget,
                        })
                    },
                    Ok(report) => {
                        &&& chunks@.len() > 0
                        &&& critical_tokens(work) <= budget
                        &&& message::message_views(report.messages@) == chunk_messages(
                            output_chunks(work, budget),
                        )
                        &&& report.dropped_prefix == chunks@.len() - report.messages@.len()
                        &&& report.folded_tool_segments == capped_count(
                            messages_folded(
                                chunk_messages(envelope::chunk_views(chunks@)),
                                options.tool_fold_threshold_chars,
                                chunks@.len() as int,
                            ),
                        )
                    },
                }
            }),
    {
        if chunks.len() == 0 {
            return Err(AssembleError::EmptyInput);
        }
        let (work, folded_tool_segments) = fold_chunks(
            chunks,
            options.tool_fold_threshold_chars,
            options.tool_placeholder.as_str(),
        );
        let ghost views = envelope::chunk_views(work@);
        assert(views.len() == chunks@.len());
        let budget: u32 = options.budget.max_input_tokens;
        let (mut selected, critical_tokens) = pick_critical(&work);
        if critical_tokens > budget {
            return Err(AssembleError::HardBudgetViolation { critical_tokens, budget });
        }
        let mut used: u32 = critical_tokens;
        used = fill_layer(&work, ContextLayer::Relevant, budget, &mut selected, used);
        used = fill_layer(&work, ContextLayer::Summary, budget, &mut selected, used);
        let _used: u32 = fill_layer(&work, ContextLayer::Background, budget, &mut selected, used);
        assert(envelope::chunk_views(selected@) =~= picked_chunks(views, budget));
        let messages = order_selected(&selected);
        proof {
            lemma_picked_count(views, budget);
            let keys = output_keys(picked_chunks(views, budget));
            sorting::order_is_stable(keys, keys.len());
            assert(messages@.len() == message::message_views(messages@).len());
            assert(selected@.len() == envelope::chunk_views(selected@).len());
        }
        let dropped_prefix: usize = chunks.len() - messages.len();
        Ok(AssembleReport { messages, dropped_prefix, folded_tool_segments })
    }
}

proof fn lemma_layer_counts(cs: Seq<envelope::ChunkView>, n: int)
    requires
        0 <= n <= cs.len(),
    ensures
        critical_chunks(cs, n).len() + layer_chunks(cs, ContextLayer::Relevant, n).len()
            + layer_chunks(cs, ContextLayer::Summary, n).len() + layer_chunks(
            cs,
            ContextLayer::Background,
            n,
        ).len() <= n,
    decreases n,
{
    if n > 0 {
        lemma_layer_counts(cs, n - 1);
    }
}

proof fn lemma_filled_count(f: Fill, cands: Seq<envelope::ChunkView>, budget: u32, n: int)
    requires
        0 <= n <= cands.len(),
    ensures
        f.picked.len() <= filled_with(f, cands, budget, n).picked.len() <= f.picked.len() + n,
        filled_with(f, cands, budget, n).picked.take(f.picked.len() as int) == f.picked,
    decreases n,
{
    if n > 0 {
        lemma_filled_count(f, cands, budget, n - 1);
        let g = filled_with(f, cands, budget, n - 1);
        let h = filled_with(f, cands, budget, n);
        assert(h.picked.take(f.picked.len() as int) =~= g.picked.take(f.picked.len() as int));
    } else {
        assert(f.picked.take(f.picked.len() as int) =~= f.picked);
    }
}

proof fn lemma_candidates_count(cs: Seq<envelope::ChunkView>, layer: ContextLayer)
    requires
        cs.len() <= usize::MAX,
    ensures
        candidates(cs, layer).len() == layer_chunks(cs, layer, cs.len() as int).len(),
{
    lemma_layer_small(cs, layer, cs.len() as int);
    let own = layer_chunks(cs, layer, cs.len() as int);
    sorting::order_is_stable(candidate_keys(layer, own), own.len());
}

proof fn lemma_layer_small(cs: Seq<envelope::ChunkView>, layer: ContextLayer, n: int)
    requires
        0 <= n <= cs.len(),
    ensures
        layer_chunks(cs, layer, n).len() <= n,
        forall|i: int|
            0 <= i < layer_chunks(cs, layer, n).len() ==> (#[trigger] layer_chunks(
                cs,
                layer,
                n,
            )[i]).layer == layer,
    decreases n,
{
    if n > 0 {
        lemma_layer_small(cs, layer, n - 1);
    }
}

proof fn lemma_picked_count(cs: Seq<envelope::ChunkView>, budget: u32)
    requires
        cs.len() <= usize::MAX,
    ensures
        picked_chunks(cs, budget).len() <= cs.len(),
        critical_chunks(cs, cs.len() as int).len() <= picked_chunks(cs, budget).len(),
        picked_chunks(cs, budget).take(critical_chunks(cs, cs.len() as int).len() as int)
            == critical_chunks(cs, cs.len() as int),
{
    let crit = critical_chunks(cs, cs.len() as int);
    let f0 = Fill { picked: crit, used: critical_tokens(cs) };
    let f1 = filled_layer(f0, cs, ContextLayer::Relevant, budget);
    let f2 = filled_layer(f1, cs, ContextLayer::Summary, budget);
    let f3 = filled_layer(f2, cs, ContextLayer::Background, budget);
    let c1 = candidates(cs, ContextLayer::Relevant);
    let c2 = candidates(cs, ContextLayer::Summary);
    let c3 = candidates(cs, ContextLayer::Background);
    lemma_candidates_count(cs, ContextLayer::Relevant);
    lemma_candidates_count(cs, ContextLayer::Summary);
    lemma_candidates_count(cs, ContextLayer::Background);
    lemma_filled_count(f0, c1, budget, c1.len() as int);
    lemma_filled_count(f1, c2, budget, c2.len() as int);
    lemma_filled_count(f2, c3, budget, c3.len() as int);
    lemma_layer_counts(cs, cs.len() as int);
    let k = crit.len() as int;
    assert(f3.picked.take(k) =~= f3.picked.take(f2.picked.len() as int).take(
        f1.picked.len() as int,
    ).take(k));
}

/// Every critical chunk is sent when assembly succeeds.
pub proof fn critical_chunks_are_sent(cs: Seq<envelope::ChunkView>, budget: u32, k: int)
    requires
        cs.len() <= usize::MAX,
        0 <= k < critical_chunks(cs, cs.len() as int).len(),
    ensures
        output_chunks(cs, budget).contains(critical_chunks(cs, cs.len() as int)[k]),
{
    lemma_picked_count(cs, budget);
    let crit = critical_chunks(cs, cs.len() as int);
    let picked = picked_chunks(cs, budget);
    let keys = output_keys(picked);
    sorting::order_is_stable(keys, keys.len());
    let order = sorting::order_of(keys);
    assert(picked.take(crit.len() as int)[k] == crit[k]);
    assert(sorting::holds(order, k));
    let i = choose|i: int| 0 <= i < order.len() && #[trigger] order[i] == k;
    assert(output_chunks(cs, budget)[i] == crit[k]);
}

proof fn lemma_candidates_layer(cs: Seq<envelope::ChunkView>, layer: ContextLayer, i: int)
    requires
        cs.len() <= usize::MAX,
        0 <= i < candidates(cs, layer).len(),
    ensures
        candidates(cs, layer)[i].layer == layer,
{
    let own = layer_chunks(cs, layer, cs.len() as int);
    lemma_layer_small(cs, layer, cs.len() as int);
    let keys = candidate_keys(layer, own);
    sorting::order_is_stable(keys, keys.len());
    let at = sorting::order_of(keys)[i];
    assert(own[at as int].layer == layer);
}

/// No chunk is from the archive.
pub open spec fn none_archived(cs: Seq<envelope::ChunkView>) -> bool {
    forall|i: int| 0 <= i < cs.len() ==> (#[trigger] cs[i]).layer != ContextLayer::Archive
}

proof fn lemma_filled_unarchived(
    f: Fill,
    cs: Seq<envelope::ChunkView>,
    layer: ContextLayer,
    budget: u32,
    n: int,
)
    requires
        cs.len() <= usize::MAX,
        layer != ContextLayer::Archive,
        none_archived(f.picked),
        0 <= n <= candidates(cs, layer).len(),
    ensures
        none_archived(filled_with(f, candidates(cs, layer), budget, n).picked),
    decreases n,
{
    if n > 0 {
        lemma_filled_unarchived(f, cs, layer, budget, n - 1);
        lemma_candidates_layer(cs, layer, n - 1);
    }
}

proof fn lemma_critical_unarchived(cs: Seq<envelope::ChunkView>, n: int)
    requires
        0 <= n <= cs.len(),
    ensures
        none_archived(critical_chunks(cs, n)),
    decreases n,
{
    if n > 0 {
        lemma_critical_unarchived(cs, n - 1);
    }
}

/// The archive never becomes part of the payload.
pub proof fn archive_is_never_sent(cs: Seq<envelope::ChunkView>, budget: u32)
    requires
        cs.len() <= usize::MAX,
    ensures
        none_archived(output_chunks(cs, budget)),
{
    lemma_critical_unarchived(cs, cs.len() as int);
    let f0 = Fill {
        picked: critical_chunks(cs, cs.len() as int),
        used: critical_tokens(cs),
    };
    let c1 = candidates(cs, ContextLayer::Relevant);
    let c2 = candidates(cs, ContextLayer::Summary);
    let c3 = candidates(cs, ContextLayer::Background);
    lemma_filled_unarchived(f0, cs, ContextLayer::Relevant, budget, c1.len() as int);
    let f1 = filled_layer(f0, cs, ContextLayer::Relevant, budget);
    lemma_filled_unarchived(f1, cs, ContextLayer::Summary, budget, c2.len() as int);
    let f2 = filled_layer(f1, cs, ContextLayer::Summary, budget);
    lemma_filled_unarchived(f2, cs, ContextLayer::Background, budget, c3.len() as int);
    let picked = picked_chunks(cs, budget);
    lemma_picked_count(cs, budget);
    let keys = output_keys(picked);
    sorting::order_is_stable(keys, keys.len());
    let order = sorting::order_of(keys);
    assert forall|i: int| 0 <= i < output_chunks(cs, budget).len() implies (
    #[trigger] output_chunks(cs, budget)[i]).layer != ContextLayer::Archive by {
        assert(order[i] < keys.len());
        assert(picked[order[i] as int].layer != ContextLayer::Archive);
    }
}

proof fn lemma_filled_budget(f: Fill, cands: Seq<envelope::ChunkView>, budget: u32, n: int)
    requires
        budget < u32::MAX,
        f.used <= budget,
        f.used == chunks_tokens(f.picked, f.picked.len() as int),
        0 <= n <= cands.len(),
    ensures
        ({
            let g = filled_with(f, cands, budget, n);
            g.used <= budget && g.used == chunks_tokens(g.picked, g.picked.len() as int)
        }),
    decreases n,
{
    if n > 0 {
        lemma_filled_budget(f, cands, budget, n - 1);
        let g = filled_with(f, cands, budget, n - 1);
        let h = filled_with(f, cands, budget, n);
        if h != g {
            lemma_tokens_prefix(g.picked, h.picked, g.picked.len() as int);
        }
    }
}

proof fn lemma_tokens_insert(s: Seq<envelope::ChunkView>, at: int, x: envelope::ChunkView, n: int)
    requires
        0 <= at <= s.len(),
        at < n <= s.len() + 1,
    ensures
        chunks_tokens(s.insert(at, x), n) == chunks_tokens(s, n - 1)
            + token_estimate::message_tokens(x.message),
    decreases n,
{
    let t = s.insert(at, x);
    if n - 1 == at {
        lemma_tokens_prefix(t, s, at);
    } else {
        lemma_tokens_insert(s, at, x, n - 1);
        assert(t[n - 1] == s[n - 2]);
    }
}

proof fn lemma_sorted_tokens(
    items: Seq<envelope::ChunkView>,
    keys: Seq<sorting::KeyView>,
    n: nat,
)
    requires
        n <= items.len(),
        items.len() == keys.len(),
        n <= usize::MAX,
    ensures
        ({
            let order = sorting::order_upto(keys, n);
            let s = Seq::new(order.len(), |i: int| items[order[i] as int]);
            chunks_tokens(s, s.len() as int) == chunks_tokens(items, n as int)
        }),
    decreases n,
{
    if n > 0 {
        let m = (n - 1) as nat;
        lemma_sorted_tokens(items, keys, m);
        let before = sorting::order_upto(keys, m);
        let x = m as usize;
        let at = sorting::lemma_placed_where(before, keys, x);
        let after = sorting::order_upto(keys, n);
        let sb = Seq::new(before.len(), |i: int| items[before[i] as int]);
        let sa = Seq::new(after.len(), |i: int| items[after[i] as int]);
        assert(after == before.insert(at, x));
        assert(sa =~= sb.insert(at, items[x as int]));
        lemma_tokens_insert(sb, at, items[x as int], sa.len() as int);
    }
}

/// What is sent fits the budget: the critical chunks do, and every other
/// chunk is added only where it still fits.
pub proof fn sent_chunks_fit_the_budget(cs: Seq<envelope::ChunkView>, budget: u32)
    requires
        cs.len() <= usize::MAX,
        critical_tokens(cs) <= budget,
        budget < u32::MAX,
    ensures
        chunks_tokens(output_chunks(cs, budget), output_chunks(cs, budget).len() as int) <= budget,
{
    let f0 = Fill {
        picked: critical_chunks(cs, cs.len() as int),
        used: critical_tokens(cs),
    };
    let f1 = filled_layer(f0, cs, ContextLayer::Relevant, budget);
    let f2 = filled_layer(f1, cs, ContextLayer::Summary, budget);
    let c1 = candidates(cs, ContextLayer::Relevant);
    let c2 = candidates(cs, ContextLayer::Summary);
    let c3 = candidates(cs, ContextLayer::Background);
    lemma_tokens_natural(f0.picked, f0.picked.len() as int);
    lemma_filled_budget(f0, c1, budget, c1.len() as int);
    lemma_filled_budget(f1, c2, budget, c2.len() as int);
    lemma_filled_budget(f2, c3, budget, c3.len() as int);
    lemma_picked_count(cs, budget);
    let picked = picked_chunks(cs, budget);
    let keys = output_keys(picked);
    lemma_sorted_tokens(picked, keys, picked.len());
}

proof fn lemma_tokens_natural(s: Seq<envelope::ChunkView>, n: int)
    requires
        n <= s.len(),
    ensures
        chunks_tokens(s, n) >= 0,
    decreases n,
{
    if n > 0 {
        lemma_tokens_natural(s, n - 1);
    }
}

proof fn lemma_skip_tools(ms: Seq<message::MessageView>, s: int)
    requires
        0 <= s <= ms.len(),
    ensures
        s <= skip_tools(ms, s) <= ms.len(),
        skip_tools(ms, s) < ms.len() ==> ms[skip_tools(ms, s)].role != MessageRole::Tool,
        forall|i: int|
            s <= i < skip_tools(ms, s) ==> (#[trigger] ms[i]).role == MessageRole::Tool,
    decreases ms.len() - s,
{
    if s < ms.len() && ms[s].role == MessageRole::Tool {
        lemma_skip_tools(ms, s + 1);
    }
}

proof fn lemma_scan_back(
    ms: Seq<message::MessageView>,
    budget: u32,
    min_tail: usize,
    i: int,
    used: u32,
)
    requires
        0 <= i <= ms.len(),
    ensures
        0 <= scan_back(ms, budget, min_tail, i, i, used) <= i,
    decreases i,
{
    if i > 0 {
        let next = token_estimate::capped(used + token_estimate::message_tokens(ms[i - 1]));
        lemma_scan_back(ms, budget, min_tail, i - 1, next);
    }
}

/// The kept suffix never begins with the output of a tool.
pub proof fn suffix_never_starts_with_tool(
    ms: Seq<message::MessageView>,
    budget: u32,
    min_tail: usize,
)
    ensures
        0 <= suffix_start(ms, budget, min_tail) <= ms.len(),
        suffix_start(ms, budget, min_tail) < ms.len() ==> ms[suffix_start(
            ms,
            budget,
            min_tail,
        )].role != MessageRole::Tool,
{
    let n = ms.len() as int;
    lemma_scan_back(ms, budget, min_tail, n, 0);
    let scanned = scan_back(ms, budget, min_tail, n, n, 0);
    lemma_skip_tools(ms, scanned);
    let s = skip_tools(ms, scanned);
    if s < n {
        assert(skip_tools(ms, s) == s);
    }
}

proof fn lemma_scan_tail(
    ms: Seq<message::MessageView>,
    budget: u32,
    min_tail: usize,
    i: int,
    used: u32,
)
    requires
        0 <= i < ms.len(),
    ensures
        ms.len() - scan_back(ms, budget, min_tail, i, i, used) >= min_tail || scan_back(
            ms,
            budget,
            min_tail,
            i,
            i,
            used,
        ) == 0,
    decreases i,
{
    if i > 0 {
        let cost = token_estimate::message_tokens(ms[i - 1]);
        let next = token_estimate::capped(used + cost);
        if !(ms.len() - i >= min_tail && next > budget) {
            lemma_scan_tail(ms, budget, min_tail, i - 1, next);
        }
    }
}

/// Of the newest messages, as many as asked for are kept, whatever they take;
/// only outputs of tools that stand before the first kept message may be
/// missing. The newest message must fit the budget by itself.
pub proof fn minimum_tail_is_kept(ms: Seq<message::MessageView>, budget: u32, min_tail: usize)
    requires
        ms.len() > 0,
        token_estimate::message_tokens(ms.last()) <= budget,
    ensures
        forall|i: int|
            0 <= i < suffix_start(ms, budget, min_tail) && i >= ms.len() - min_tail ==> (
            #[trigger] ms[i]).role == MessageRole::Tool,
{
    let n = ms.len() as int;
    let cost = token_estimate::message_tokens(ms[n - 1]);
    lemma_scan_tail(ms, budget, min_tail, n - 1, token_estimate::capped(0 + cost));
    lemma_scan_back(ms, budget, min_tail, n, 0);
    let scanned = scan_back(ms, budget, min_tail, n, n, 0);
    lemma_skip_tools(ms, scanned);
    let s = skip_tools(ms, scanned);
    if s < n {
        assert(skip_tools(ms, s) == s);
    }
}

proof fn lemma_window_front(ms: Seq<message::MessageView>, s: int, e: int)
    requires
        0 <= s < e <= ms.len(),
    ensures
        window_tokens(ms, s, e) == token_estimate::message_tokens(ms[s]) + window_tokens(
            ms,
            s + 1,
            e,
        ),
        window_tokens(ms, s + 1, e) >= 0,
    decreases e - s,
{
    if s + 1 < e {
        lemma_window_front(ms, s, e - 1);
    } else {
        assert(window_tokens(ms, s, e - 1) == 0);
        assert(window_tokens(ms, s + 1, e) == 0);
    }
}

proof fn lemma_window_shrinks(ms: Seq<message::MessageView>, a: int, b: int)
    requires
        0 <= a <= b <= ms.len(),
    ensures
        window_tokens(ms, b, ms.len() as int) <= window_tokens(ms, a, ms.len() as int),
    decreases b - a,
{
    if a < b {
        lemma_window_front(ms, a, ms.len() as int);
        lemma_window_shrinks(ms, a + 1, b);
    }
}

proof fn lemma_scan_fits(
    ms: Seq<message::MessageView>,
    budget: u32,
    min_tail: usize,
    i: int,
    used: u32,
)
    requires
        0 <= i < ms.len(),
        budget < u32::MAX,
        used == token_estimate::capped(window_tokens(ms, i, ms.len() as int)),
        ms.len() - i > min_tail && ms.len() - i > 1 ==> used <= budget,
    ensures
        ({
            let n = ms.len() as int;
            let r = scan_back(ms, budget, min_tail, i, i, used);
            n - r > min_tail && n - r > 1 ==> window_tokens(ms, r, n) <= budget
        }),
    decreases i,
{
    if i > 0 {
        let cost = token_estimate::message_tokens(ms[i - 1]);
        let next = token_estimate::capped(used + cost);
        lemma_window_front(ms, i - 1, ms.len() as int);
        if !(ms.len() - i >= min_tail && next > budget) {
            lemma_scan_fits(ms, budget, min_tail, i - 1, next);
        }
    }
}

/// Messages beyond the minimum tail are kept only where the whole suffix fits
/// the budget.
pub proof fn longer_suffix_fits_the_budget(
    ms: Seq<message::MessageView>,
    budget: u32,
    min_tail: usize,
)
    requires
        budget < u32::MAX,
        ms.len() - suffix_start(ms, budget, min_tail) > min_tail,
        ms.len() - suffix_start(ms, budget, min_tail) > 1,
    ensures
        window_tokens(ms, suffix_start(ms, budget, min_tail), ms.len() as int) <= budget,
{
    let n = ms.len() as int;
    lemma_scan_back(ms, budget, min_tail, n, 0);
    let scanned = scan_back(ms, budget, min_tail, n, n, 0);
    lemma_skip_tools(ms, scanned);
    let s = skip_tools(ms, scanned);
    if s < n {
        assert(skip_tools(ms, s) == s);
    }
    assert(n > 0);
    let cost = token_estimate::message_tokens(ms[n - 1]);
    lemma_window_front(ms, n - 1, n);
    assert(window_tokens(ms, n, n) == 0);
    lemma_scan_fits(ms, budget, min_tail, n - 1, token_estimate::capped(0 + cost));
    lemma_window_shrinks(ms, scanned, s);
}

proof fn lemma_scan_stops(
    ms: Seq<message::MessageView>,
    budget: u32,
    min_tail: usize,
    i: int,
    used: u32,
)
    requires
        0 <= i < ms.len(),
        used <= window_tokens(ms, i, ms.len() as int),
    ensures
        ({
            let n = ms.len() as int;
            let r = scan_back(ms, budget, min_tail, i, i, used);
            r > 0 ==> window_tokens(ms, r - 1, n) > budget
        }),
    decreases i,
{
    if i > 0 {
        let cost = token_estimate::message_tokens(ms[i - 1]);
        let next = token_estimate::capped(used + cost);
        lemma_window_front(ms, i - 1, ms.len() as int);
        if !(ms.len() - i >= min_tail && next > budget) {
            lemma_scan_stops(ms, budget, min_tail, i - 1, next);
        }
    }
}

/// The kept suffix is the longest that fits: one that begins earlier, with
/// anything but the output of a tool, takes more than the budget.
pub proof fn longer_suffix_does_not_fit(
    ms: Seq<message::MessageView>,
    budget: u32,
    min_tail: usize,
    j: int,
)
    requires
        0 <= j < suffix_start(ms, budget, min_tail),
        ms[j].role != MessageRole::Tool,
    ensures
        window_tokens(ms, j, ms.len() as int) > budget,
{
    let n = ms.len() as int;
    lemma_scan_back(ms, budget, min_tail, n, 0);
    let scanned = scan_back(ms, budget, min_tail, n, n, 0);
    lemma_skip_tools(ms, scanned);
    let s = skip_tools(ms, scanned);
    if s < n {
        assert(skip_tools(ms, s) == s);
    }
    assert(n > 0);
    let cost = token_estimate::message_tokens(ms[n - 1]);
    lemma_window_front(ms, n - 1, n);
    assert(window_tokens(ms, n, n) == 0);
    if cost > budget {
        lemma_window_shrinks(ms, j, n - 1);
    } else {
        lemma_scan_stops(ms, budget, min_tail, n - 1, token_estimate::capped(0 + cost));
        lemma_window_shrinks(ms, j, scanned - 1);
    }
}

/// The fill after the layers up to the given one have been tried.
pub open spec fn filled_through(
    cs: Seq<envelope::ChunkView>,
    layer: ContextLayer,
    budget: u32,
) -> Fill {
    let f0 = Fill {
        picked: critical_chunks(cs, cs.len() as int),
        used: critical_tokens(cs),
    };
    let f1 = filled_layer(f0, cs, ContextLayer::Relevant, budget);
    let f2 = filled_layer(f1, cs, ContextLayer::Summary, budget);
    match layer {
        ContextLayer::System | ContextLayer::Active => f0,
        ContextLayer::Relevant => f1,
        ContextLayer::Summary => f2,
        ContextLayer::Background | ContextLayer::Archive => filled_layer(
            f2,
            cs,
            ContextLayer::Background,
            budget,
        ),
    }
}

/// The two lists have the same chunks, in the same order, in the given layer
/// and in each above it.
pub open spec fn agree_through(
    a: Seq<envelope::ChunkView>,
    b: Seq<envelope::ChunkView>,
    layer: ContextLayer,
) -> bool {
    &&& critical_chunks(a, a.len() as int) == critical_chunks(b, b.len() as int)
    &&& forall|l: ContextLayer|
        envelope::layer_rank(l) <= envelope::layer_rank(layer) ==> #[trigger] layer_chunks(
            a,
            l,
            a.len() as int,
        ) == layer_chunks(b, l, b.len() as int)
}

proof fn lemma_filled_of_layer(
    f: Fill,
    cs: Seq<envelope::ChunkView>,
    layer: ContextLayer,
    budget: u32,
    n: int,
    i: int,
)
    requires
        cs.len() <= usize::MAX,
        0 <= n <= candidates(cs, layer).len(),
        f.picked.len() <= i < filled_with(f, candidates(cs, layer), budget, n).picked.len(),
    ensures
        filled_with(f, candidates(cs, layer), budget, n).picked[i].layer == layer,
    decreases n,
{
    if n > 0 {
        lemma_candidates_layer(cs, layer, n - 1);
        let g = filled_with(f, candidates(cs, layer), budget, n - 1);
        if i < g.picked.len() {
            lemma_filled_of_layer(f, cs, layer, budget, n - 1, i);
        }
    }
}

proof fn lemma_picked_beyond(
    cs: Seq<envelope::ChunkView>,
    layer: ContextLayer,
    budget: u32,
)
    requires
        cs.len() <= usize::MAX,
    ensures
        filled_through(cs, layer, budget).picked.len() <= picked_chunks(cs, budget).len(),
        forall|i: int|
            0 <= i < filled_through(cs, layer, budget).picked.len() ==> #[trigger] picked_chunks(
                cs,
                budget,
            )[i] == filled_through(cs, layer, budget).picked[i],
        forall|i: int|
            filled_through(cs, layer, budget).picked.len() <= i < picked_chunks(cs, budget).len()
                ==> envelope::layer_rank((#[trigger] picked_chunks(cs, budget)[i]).layer)
                > envelope::layer_rank(layer),
{
    let f0 = filled_through(cs, ContextLayer::Active, budget);
    let f1 = filled_through(cs, ContextLayer::Relevant, budget);
    let f2 = filled_through(cs, ContextLayer::Summary, budget);
    let f3 = filled_through(cs, ContextLayer::Background, budget);
    let c1 = candidates(cs, ContextLayer::Relevant);
    let c2 = candidates(cs, ContextLayer::Summary);
    let c3 = candidates(cs, ContextLayer::Background);
    lemma_filled_count(f0, c1, budget, c1.len() as int);
    lemma_filled_count(f1, c2, budget, c2.len() as int);
    lemma_filled_count(f2, c3, budget, c3.len() as int);
    let picked = picked_chunks(cs, budget);
    let f = filled_through(cs, layer, budget);
    assert(picked == f3.picked);
    assert forall|i: int| 0 <= i < f.picked.len() implies #[trigger] picked[i] == f.picked[i] by {
        assert(i < f0.picked.len() ==> f1.picked.take(f0.picked.len() as int)[i] == f0.picked[i]);
        assert(i < f1.picked.len() ==> f2.picked.take(f1.picked.len() as int)[i] == f1.picked[i]);
        assert(i < f2.picked.len() ==> f3.picked.take(f2.picked.len() as int)[i] == f2.picked[i]);
    }
    assert forall|i: int| f.picked.len() <= i < picked.len() implies envelope::layer_rank(
        (#[trigger] picked[i]).layer,
    ) > envelope::layer_rank(layer) by {
        if i >= f2.picked.len() {
            lemma_filled_of_layer(f2, cs, ContextLayer::Background, budget, c3.len() as int, i);
        } else if i >= f1.picked.len() {
            lemma_filled_of_layer(f1, cs, ContextLayer::Summary, budget, c2.len() as int, i);
            assert(f3.picked.take(f2.picked.len() as int)[i] == f2.picked[i]);
        } else {
            lemma_filled_of_layer(f0, cs, ContextLayer::Relevant, budget, c1.len() as int, i);
            assert(f2.picked.take(f1.picked.len() as int)[i] == f1.picked[i]);
            assert(f3.picked.take(f2.picked.len() as int)[i] == f2.picked[i]);
        }
    }
}

/// The chunks of the given layer and of those above it, in order.
pub open spec fn upper_part(s: Seq<envelope::ChunkView>, layer: ContextLayer) -> Seq<
    envelope::ChunkView,
>
    decreases s.len(),
{
    if s.len() == 0 {
        Seq::empty()
    } else {
        let rest = upper_part(s.drop_last(), layer);
        if envelope::layer_rank(s.last().layer) <= envelope::layer_rank(layer) {
            rest.push(s.last())
        } else {
            rest
        }
    }
}

proof fn lemma_upper_insert(
    s: Seq<envelope::ChunkView>,
    layer: ContextLayer,
    at: int,
    x: envelope::ChunkView,
)
    requires
        0 <= at <= s.len(),
        envelope::layer_rank(x.layer) > envelope::layer_rank(layer),
    ensures
        upper_part(s.insert(at, x), layer) == upper_part(s, layer),
    decreases s.len(),
{
    let t = s.insert(at, x);
    if at == s.len() {
        assert(t.drop_last() =~= s);
    } else {
        assert(t.drop_last() =~= s.drop_last().insert(at, x));
        assert(t.last() == s.last());
        lemma_upper_insert(s.drop_last(), layer, at, x);
    }
}

/// The first `n` of the items in the order of their keys.
pub open spec fn sorted_first(
    items: Seq<envelope::ChunkView>,
    keys: Seq<sorting::KeyView>,
    n: nat,
) -> Seq<envelope::ChunkView> {
    let order = sorting::order_upto(keys, n);
    Seq::new(order.len(), |i: int| items[order[i] as int])
}

proof fn lemma_upper_sorted(
    items: Seq<envelope::ChunkView>,
    keys: Seq<sorting::KeyView>,
    layer: ContextLayer,
    m: nat,
    n: nat,
)
    requires
        m <= n <= items.len(),
        items.len() == keys.len(),
        n <= usize::MAX,
        forall|i: int|
            m <= i < n ==> envelope::layer_rank((#[trigger] items[i]).layer)
                > envelope::layer_rank(layer),
    ensures
        upper_part(sorted_first(items, keys, n), layer) == upper_part(
            sorted_first(items, keys, m),
            layer,
        ),
    decreases n - m,
{
    if m < n {
        let k = (n - 1) as nat;
        lemma_upper_sorted(items, keys, layer, m, k);
        let before = sorting::order_upto(keys, k);
        let at = sorting::lemma_placed_where(before, keys, k as usize);
        assert(sorting::order_upto(keys, n) == before.insert(at, k as usize));
        assert(sorted_first(items, keys, n) =~= sorted_first(items, keys, k).insert(
            at,
            items[k as int],
        ));
        assert(envelope::layer_rank(items[k as int].layer) > envelope::layer_rank(layer));
        lemma_upper_insert(sorted_first(items, keys, k), layer, at, items[k as int]);
    }
}

proof fn lemma_output_upper(cs: Seq<envelope::ChunkView>, layer: ContextLayer, budget: u32)
    requires
        cs.len() <= usize::MAX,
    ensures
        ({
            let f = filled_through(cs, layer, budget).picked;
            upper_part(output_chunks(cs, budget), layer) == upper_part(
                sorted_first(f, output_keys(f), f.len()),
                layer,
            )
        }),
{
    lemma_picked_beyond(cs, layer, budget);
    lemma_picked_count(cs, budget);
    let picked = picked_chunks(cs, budget);
    let f = filled_through(cs, layer, budget).picked;
    let keys = output_keys(picked);
    let own = output_keys(f);
    lemma_upper_sorted(picked, keys, layer, f.len(), picked.len());
    assert(sorted_first(picked, keys, picked.len()) =~= output_chunks(cs, budget));
    assert forall|i: int| 0 <= i < f.len() implies #[trigger] keys[i] == own[i] by {
        assert(picked[i] == f[i]);
    }
    sorting::order_depends_on_its_keys(keys, own, f.len());
    sorting::order_is_stable(own, f.len());
    assert(sorted_first(picked, keys, f.len()) =~= sorted_first(f, own, f.len())) by {
        let order = sorting::order_upto(own, f.len());
        assert forall|i: int| 0 <= i < order.len() implies picked[(#[trigger] order[i]) as int]
            == f[order[i] as int] by {
            assert(order[i] < f.len());
        }
    }
}

proof fn lemma_fill_agrees(
    a: Seq<envelope::ChunkView>,
    b: Seq<envelope::ChunkView>,
    layer: ContextLayer,
    budget: u32,
)
    requires
        agree_through(a, b, layer),
    ensures
        filled_through(b, layer, budget) == filled_through(a, layer, budget),
        critical_tokens(a) == critical_tokens(b),
{
    let n = a.len() as int;
    let m = b.len() as int;
    if envelope::layer_rank(layer) >= 2 {
        assert(layer_chunks(a, ContextLayer::Relevant, n) == layer_chunks(
            b,
            ContextLayer::Relevant,
            m,
        ));
    }
    if envelope::layer_rank(layer) >= 3 {
        assert(layer_chunks(a, ContextLayer::Summary, n) == layer_chunks(
            b,
            ContextLayer::Summary,
            m,
        ));
    }
    if envelope::layer_rank(layer) >= 4 {
        assert(layer_chunks(a, ContextLayer::Background, n) == layer_chunks(
            b,
            ContextLayer::Background,
            m,
        ));
    }
}

/// What is picked of a layer and of those above it does not depend on lower
/// layers, all of it is sent, and nothing else of those layers is: a lower
/// layer never takes the place of a higher one.
pub proof fn lower_layers_displace_nothing(
    a: Seq<envelope::ChunkView>,
    b: Seq<envelope::ChunkView>,
    layer: ContextLayer,
    budget: u32,
)
    requires
        a.len() <= usize::MAX,
        agree_through(a, b, layer),
    ensures
        filled_through(b, layer, budget) == filled_through(a, layer, budget),
        forall|k: int|
            0 <= k < filled_through(a, layer, budget).picked.len() ==> output_chunks(
                a,
                budget,
            ).contains(#[trigger] filled_through(a, layer, budget).picked[k]),
        forall|i: int|
            0 <= i < output_chunks(a, budget).len() && envelope::layer_rank(
                (#[trigger] output_chunks(a, budget)[i]).layer,
            ) <= envelope::layer_rank(layer) ==> filled_through(a, layer, budget).picked.contains(
                output_chunks(a, budget)[i],
            ),
{
    lemma_fill_agrees(a, b, layer, budget);
    lemma_picked_beyond(a, layer, budget);
    lemma_picked_count(a, budget);
    let picked = picked_chunks(a, budget);
    let f = filled_through(a, layer, budget).picked;
    let keys = output_keys(picked);
    sorting::order_is_stable(keys, keys.len());
    let order = sorting::order_of(keys);
    let sent = output_chunks(a, budget);
    assert forall|k: int| 0 <= k < f.len() implies sent.contains(#[trigger] f[k]) by {
        assert(picked[k] == f[k]);
        assert(sorting::holds(order, k));
        let i = choose|i: int| 0 <= i < order.len() && #[trigger] order[i] == k;
        assert(sent[i] == picked[k]);
    }
    assert forall|i: int|
        0 <= i < sent.len() && envelope::layer_rank((#[trigger] sent[i]).layer)
            <= envelope::layer_rank(layer) implies f.contains(sent[i]) by {
        let at = order[i] as int;
        assert(order[i] < picked.len());
        assert(sent[i] == picked[at]);
        assert(at < f.len());
        assert(f[at] == sent[i]);
    }
}

/// Of a layer and of those above it, the same chunks are sent in the same order
/// whatever the lower layers hold.
pub proof fn upper_layers_are_sent_alike(
    a: Seq<envelope::ChunkView>,
    b: Seq<envelope::ChunkView>,
    layer: ContextLayer,
    budget: u32,
)
    requires
        a.len() <= usize::MAX,
        b.len() <= usize::MAX,
        agree_through(a, b, layer),
    ensures
        critical_tokens(a) == critical_tokens(b),
        upper_part(output_chunks(a, budget), layer) == upper_part(output_chunks(b, budget), layer),
{
    lemma_fill_agrees(a, b, layer, budget);
    lemma_output_upper(a, layer, budget);
    lemma_output_upper(b, layer, budget);
}

/// The chunks but those of one layer, in order.
pub open spec fn without_layer(cs: Seq<envelope::ChunkView>, gone: ContextLayer) -> Seq<
    envelope::ChunkView,
>
    decreases cs.len(),
{
    if cs.len() == 0 {
        Seq::empty()
    } else {
        let rest = without_layer(cs.drop_last(), gone);
        if cs.last().layer == gone {
            rest
        } else {
            rest.push(cs.last())
        }
    }
}

proof fn lemma_layer_prefix(
    a: Seq<envelope::ChunkView>,
    b: Seq<envelope::ChunkView>,
    layer: ContextLayer,
    n: int,
)
    requires
        0 <= n <= a.len(),
        n <= b.len(),
        forall|i: int| 0 <= i < n ==> #[trigger] a[i] == b[i],
    ensures
        layer_chunks(a, layer, n) == layer_chunks(b, layer, n),
        critical_chunks(a, n) == critical_chunks(b, n),
    decreases n,
{
    if n > 0 {
        lemma_layer_prefix(a, b, layer, n - 1);
        assert(a[n - 1] == b[n - 1]);
    }
}

proof fn lemma_without_layer(
    cs: Seq<envelope::ChunkView>,
    gone: ContextLayer,
    layer: ContextLayer,
)
    requires
        !envelope::critical(gone),
        layer != gone,
    ensures
        ({
            let kept = without_layer(cs, gone);
            &&& kept.len() <= cs.len()
            &&& layer_chunks(kept, layer, kept.len() as int) == layer_chunks(
                cs,
                layer,
                cs.len() as int,
            )
            &&& critical_chunks(kept, kept.len() as int) == critical_chunks(cs, cs.len() as int)
        }),
    decreases cs.len(),
{
    if cs.len() > 0 {
        let head = cs.drop_last();
        let rest = without_layer(head, gone);
        let kept = without_layer(cs, gone);
        lemma_without_layer(head, gone, layer);
        lemma_layer_prefix(cs, head, layer, head.len() as int);
        if cs.last().layer != gone {
            lemma_layer_prefix(kept, rest, layer, rest.len() as int);
        }
    }
}

proof fn lemma_without_agrees(
    cs: Seq<envelope::ChunkView>,
    gone: ContextLayer,
    layer: ContextLayer,
)
    requires
        !envelope::critical(gone),
        envelope::layer_rank(layer) < envelope::layer_rank(gone),
    ensures
        agree_through(cs, without_layer(cs, gone), layer),
        without_layer(cs, gone).len() <= cs.len(),
{
    let kept = without_layer(cs, gone);
    lemma_without_layer(cs, gone, layer);
    assert forall|l: ContextLayer|
        envelope::layer_rank(l) <= envelope::layer_rank(layer) implies #[trigger] layer_chunks(
        cs,
        l,
        cs.len() as int,
    ) == layer_chunks(kept, l, kept.len() as int) by {
        lemma_without_layer(cs, gone, l);
    }
}

proof fn lemma_folding_commutes(
    cs: Seq<envelope::ChunkView>,
    gone: ContextLayer,
    threshold: usize,
    placeholder: Seq<char>,
)
    ensures
        folded_chunks(without_layer(cs, gone), threshold, placeholder) == without_layer(
            folded_chunks(cs, threshold, placeholder),
            gone,
        ),
    decreases cs.len(),
{
    let work = folded_chunks(cs, threshold, placeholder);
    if cs.len() > 0 {
        let head = cs.drop_last();
        lemma_folding_commutes(head, gone, threshold, placeholder);
        assert(work.drop_last() =~= folded_chunks(head, threshold, placeholder));
        assert(folded_chunks(without_layer(cs, gone), threshold, placeholder) =~= without_layer(
            work,
            gone,
        ));
    } else {
        assert(folded_chunks(without_layer(cs, gone), threshold, placeholder) =~= without_layer(
            work,
            gone,
        ));
    }
}

/// There is a critical chunk.
pub open spec fn has_critical(cs: Seq<envelope::ChunkView>) -> bool {
    critical_chunks(cs, cs.len() as int).len() > 0
}

proof fn lemma_critical_among(cs: Seq<envelope::ChunkView>, n: int)
    requires
        0 <= n <= cs.len(),
    ensures
        critical_chunks(cs, n).len() <= n,
    decreases n,
{
    if n > 0 {
        lemma_critical_among(cs, n - 1);
    }
}

/// A lower layer never displaces a higher one: where chunks are assembled, they
/// are also assembled without the background, and without the background and
/// the summaries, and of the layers that are left the same chunks are sent in
/// the same order.
pub proof fn lower_layers_may_be_left_out(
    chunks: Seq<envelope::ChunkView>,
    threshold: usize,
    placeholder: Seq<char>,
    budget: u32,
)
    requires
        chunks.len() <= usize::MAX,
        has_critical(chunks),
        critical_tokens(folded_chunks(chunks, threshold, placeholder)) <= budget,
    ensures
        ({
            let fewer = without_layer(chunks, ContextLayer::Background);
            let fewest = without_layer(fewer, ContextLayer::Summary);
            let work = folded_chunks(chunks, threshold, placeholder);
            let second = folded_chunks(fewer, threshold, placeholder);
            let third = folded_chunks(fewest, threshold, placeholder);
            &&& fewer.len() > 0 && critical_tokens(second) <= budget
            &&& fewest.len() > 0 && critical_tokens(third) <= budget
            &&& upper_part(output_chunks(work, budget), ContextLayer::Summary) == upper_part(
                output_chunks(second, budget),
                ContextLayer::Summary,
            )
            &&& upper_part(output_chunks(work, budget), ContextLayer::Relevant) == upper_part(
                output_chunks(third, budget),
                ContextLayer::Relevant,
            )
        }),
{
    let fewer = without_layer(chunks, ContextLayer::Background);
    let fewest = without_layer(fewer, ContextLayer::Summary);
    let work = folded_chunks(chunks, threshold, placeholder);
    let second = folded_chunks(fewer, threshold, placeholder);
    let third = folded_chunks(fewest, threshold, placeholder);
    lemma_folding_commutes(chunks, ContextLayer::Background, threshold, placeholder);
    lemma_folding_commutes(fewer, ContextLayer::Summary, threshold, placeholder);
    lemma_without_agrees(chunks, ContextLayer::Background, ContextLayer::Summary);
    lemma_without_agrees(fewer, ContextLayer::Summary, ContextLayer::Relevant);
    lemma_critical_among(fewer, fewer.len() as int);
    lemma_critical_among(fewest, fewest.len() as int);
    lemma_without_agrees(work, ContextLayer::Background, ContextLayer::Summary);
    lemma_without_agrees(work, ContextLayer::Background, ContextLayer::Relevant);
    lemma_without_agrees(second, ContextLayer::Summary, ContextLayer::Relevant);
    upper_layers_are_sent_alike(work, second, ContextLayer::Summary, budget);
    upper_layers_are_sent_alike(work, second, ContextLayer::Relevant, budget);
    upper_layers_are_sent_alike(second, third, ContextLayer::Relevant, budget);
}

/// What is sent goes by time: the timestamps never decrease. Of chunks with one
/// timestamp the more important layer comes first, and within a layer the
/// identifiers decide.
pub proof fn sent_in_order_of_time(cs: Seq<envelope::ChunkView>, budget: u32, i: int, j: int)
    requires
        cs.len() <= usize::MAX,
        0 <= i < j < output_chunks(cs, budget).len(),
    ensures
        ({
            let a = output_chunks(cs, budget)[i];
            let b = output_chunks(cs, budget)[j];
            &&& a.timestamp <= b.timestamp
            &&& a.timestamp == b.timestamp ==> envelope::layer_rank(a.layer)
                <= envelope::layer_rank(b.layer)
            &&& a.timestamp == b.timestamp && a.layer == b.layer ==> a.chunk_id == b.chunk_id
                || text::text_before(a.chunk_id, b.chunk_id)
        }),
{
    lemma_picked_count(cs, budget);
    let picked = picked_chunks(cs, budget);
    let keys = output_keys(picked);
    sorting::order_is_stable(keys, keys.len());
    let order = sorting::order_of(keys);
    let x = order[i];
    let y = order[j];
    assert(sorting::goes_before(keys, x, y));
    assert(x < keys.len() && y < keys.len());
    assert(output_chunks(cs, budget)[i] == picked[x as int]);
    assert(output_chunks(cs, budget)[j] == picked[y as int]);
    assert(keys[x as int].text == picked[x as int].chunk_id);
    assert(keys[y as int].text == picked[y as int].chunk_id);
}

proof fn lemma_layer_source(cs: Seq<envelope::ChunkView>, layer: ContextLayer, n: int, i: int)
    requires
        0 <= n <= cs.len(),
        0 <= i < layer_chunks(cs, layer, n).len(),
    ensures
        cs.contains(layer_chunks(cs, layer, n)[i]),
    decreases n,
{
    if n > 0 {
        if i < layer_chunks(cs, layer, n - 1).len() {
            lemma_layer_source(cs, layer, n - 1, i);
        } else {
            assert(layer_chunks(cs, layer, n)[i] == cs[n - 1]);
        }
    }
}

proof fn lemma_critical_source(cs: Seq<envelope::ChunkView>, n: int, i: int)
    requires
        0 <= n <= cs.len(),
        0 <= i < critical_chunks(cs, n).len(),
    ensures
        cs.contains(critical_chunks(cs, n)[i]),
        critical_chunks(cs, n)[i].layer == ContextLayer::System || critical_chunks(cs, n)[i].layer
            == ContextLayer::Active,
    decreases n,
{
    if n > 0 {
        if i < critical_chunks(cs, n - 1).len() {
            lemma_critical_source(cs, n - 1, i);
        } else {
            assert(critical_chunks(cs, n)[i] == cs[n - 1]);
        }
    }
}

proof fn lemma_candidate_source(cs: Seq<envelope::ChunkView>, layer: ContextLayer, i: int)
    requires
        cs.len() <= usize::MAX,
        0 <= i < candidates(cs, layer).len(),
    ensures
        cs.contains(candidates(cs, layer)[i]),
{
    let own = layer_chunks(cs, layer, cs.len() as int);
    lemma_layer_small(cs, layer, cs.len() as int);
    let keys = candidate_keys(layer, own);
    sorting::order_is_stable(keys, keys.len());
    let at = sorting::order_of(keys)[i];
    lemma_layer_source(cs, layer, cs.len() as int, at as int);
}

proof fn lemma_pick_source(f: Fill, cands: Seq<envelope::ChunkView>, budget: u32, n: int, p: int) -> (j:
    int)
    requires
        0 <= n <= cands.len(),
        f.picked.len() <= p < filled_with(f, cands, budget, n).picked.len(),
    ensures
        0 <= j < n,
        cands[j] == filled_with(f, cands, budget, n).picked[p],
        token_estimate::capped(
            filled_with(f, cands, budget, j).used + token_estimate::message_tokens(
                cands[j].message,
            ),
        ) <= budget,
    decreases n,
{
    let g = filled_with(f, cands, budget, n - 1);
    if p < g.picked.len() {
        lemma_pick_source(f, cands, budget, n - 1, p)
    } else {
        n - 1
    }
}

proof fn lemma_used_grows(f: Fill, cands: Seq<envelope::ChunkView>, budget: u32, i: int, n: int)
    requires
        0 <= i <= n <= cands.len(),
    ensures
        filled_with(f, cands, budget, i).used <= filled_with(f, cands, budget, n).used,
        filled_with(f, cands, budget, i).picked.len() <= filled_with(
            f,
            cands,
            budget,
            n,
        ).picked.len(),
        forall|p: int|
            0 <= p < filled_with(f, cands, budget, i).picked.len() ==> #[trigger] filled_with(
                f,
                cands,
                budget,
                n,
            ).picked[p] == filled_with(f, cands, budget, i).picked[p],
    decreases n - i,
{
    if i < n {
        lemma_used_grows(f, cands, budget, i, n - 1);
    }
}

proof fn lemma_tried(f: Fill, cands: Seq<envelope::ChunkView>, budget: u32, i: int)
    requires
        0 <= i < cands.len(),
    ensures
        ({
            let cost = token_estimate::message_tokens(cands[i].message);
            let all = filled_with(f, cands, budget, cands.len() as int);
            ||| all.picked.contains(cands[i])
            ||| token_estimate::capped(filled_with(f, cands, budget, i).used + cost) > budget
                && filled_with(f, cands, budget, i).used <= all.used
        }),
{
    let all = filled_with(f, cands, budget, cands.len() as int);
    lemma_used_grows(f, cands, budget, i, cands.len() as int);
    lemma_used_grows(f, cands, budget, i + 1, cands.len() as int);
    let g = filled_with(f, cands, budget, i);
    let h = filled_with(f, cands, budget, i + 1);
    if h != g {
        assert(h.picked[g.picked.len() as int] == cands[i]);
        assert(all.picked[g.picked.len() as int] == cands[i]);
    }
}

/// The fill before the candidates of a soft layer are tried.
pub open spec fn filled_before(
    cs: Seq<envelope::ChunkView>,
    layer: ContextLayer,
    budget: u32,
) -> Fill {
    match layer {
        ContextLayer::Relevant => filled_through(cs, ContextLayer::Active, budget),
        ContextLayer::Summary => filled_through(cs, ContextLayer::Relevant, budget),
        _ => filled_through(cs, ContextLayer::Summary, budget),
    }
}

proof fn lemma_before_is_above(cs: Seq<envelope::ChunkView>, layer: ContextLayer, budget: u32, p: int)
    requires
        cs.len() <= usize::MAX,
        layer == ContextLayer::Relevant || layer == ContextLayer::Summary || layer
            == ContextLayer::Background,
        0 <= p < filled_before(cs, layer, budget).picked.len(),
    ensures
        cs.contains(filled_before(cs, layer, budget).picked[p]),
        filled_before(cs, layer, budget).picked[p].layer != layer,
{
    let f0 = filled_through(cs, ContextLayer::Active, budget);
    let f1 = filled_through(cs, ContextLayer::Relevant, budget);
    let f2 = filled_through(cs, ContextLayer::Summary, budget);
    let c1 = candidates(cs, ContextLayer::Relevant);
    let c2 = candidates(cs, ContextLayer::Summary);
    lemma_used_grows(f0, c1, budget, 0, c1.len() as int);
    lemma_used_grows(f1, c2, budget, 0, c2.len() as int);
    if p < f0.picked.len() {
        lemma_critical_source(cs, cs.len() as int, p);
        assert(f1.picked[p] == f0.picked[p]);
        assert(f2.picked[p] == f1.picked[p]);
    } else if p < f1.picked.len() {
        let j = lemma_pick_source(f0, c1, budget, c1.len() as int, p);
        lemma_candidates_layer(cs, ContextLayer::Relevant, j);
        lemma_candidate_source(cs, ContextLayer::Relevant, j);
        assert(f2.picked[p] == f1.picked[p]);
    } else {
        let j = lemma_pick_source(f1, c2, budget, c2.len() as int, p);
        lemma_candidates_layer(cs, ContextLayer::Summary, j);
        lemma_candidate_source(cs, ContextLayer::Summary, j);
    }
}

/// Nothing is sent that was not given.
pub proof fn sent_chunks_were_given(cs: Seq<envelope::ChunkView>, budget: u32, i: int)
    requires
        cs.len() <= usize::MAX,
        0 <= i < output_chunks(cs, budget).len(),
    ensures
        cs.contains(output_chunks(cs, budget)[i]),
{
    lemma_picked_count(cs, budget);
    let picked = picked_chunks(cs, budget);
    let keys = output_keys(picked);
    sorting::order_is_stable(keys, keys.len());
    let p = sorting::order_of(keys)[i] as int;
    assert(sorting::order_of(keys)[i] < keys.len());
    let f = filled_before(cs, ContextLayer::Background, budget);
    let cands = candidates(cs, ContextLayer::Background);
    lemma_used_grows(f, cands, budget, 0, cands.len() as int);
    if p < f.picked.len() {
        lemma_before_is_above(cs, ContextLayer::Background, budget, p);
        assert(picked[p] == f.picked[p]);
    } else {
        let j = lemma_pick_source(f, cands, budget, cands.len() as int, p);
        lemma_candidate_source(cs, ContextLayer::Background, j);
    }
}

proof fn lemma_layer_holds(cs: Seq<envelope::ChunkView>, n: int, k: int)
    requires
        0 <= k < n <= cs.len(),
    ensures
        layer_chunks(cs, cs[k].layer, n).contains(cs[k]),
    decreases n,
{
    let layer = cs[k].layer;
    let all = layer_chunks(cs, layer, n);
    if k == n - 1 {
        assert(all[all.len() - 1] == cs[k]);
    } else {
        lemma_layer_holds(cs, n - 1, k);
        let rest = layer_chunks(cs, layer, n - 1);
        let i = choose|i: int| 0 <= i < rest.len() && #[trigger] rest[i] == cs[k];
        assert(all[i] == cs[k]);
    }
}

proof fn lemma_is_candidate(cs: Seq<envelope::ChunkView>, k: int) -> (i: int)
    requires
        cs.len() <= usize::MAX,
        0 <= k < cs.len(),
    ensures
        0 <= i < candidates(cs, cs[k].layer).len(),
        candidates(cs, cs[k].layer)[i] == cs[k],
{
    let layer = cs[k].layer;
    let own = layer_chunks(cs, layer, cs.len() as int);
    lemma_layer_holds(cs, cs.len() as int, k);
    lemma_layer_small(cs, layer, cs.len() as int);
    let at = choose|at: int| 0 <= at < own.len() && #[trigger] own[at] == cs[k];
    let keys = candidate_keys(layer, own);
    sorting::order_is_stable(keys, keys.len());
    let order = sorting::order_of(keys);
    assert(sorting::holds(order, at));
    let i = choose|i: int| 0 <= i < order.len() && #[trigger] order[i] == at;
    i
}

proof fn lemma_picked_is_sent(cs: Seq<envelope::ChunkView>, layer: ContextLayer, budget: u32, x:
    envelope::ChunkView)
    requires
        cs.len() <= usize::MAX,
        filled_through(cs, layer, budget).picked.contains(x),
    ensures
        output_chunks(cs, budget).contains(x),
{
    lemma_picked_beyond(cs, layer, budget);
    lemma_picked_count(cs, budget);
    let f = filled_through(cs, layer, budget).picked;
    let k = choose|k: int| 0 <= k < f.len() && f[k] == x;
    let picked = picked_chunks(cs, budget);
    assert(picked[k] == x);
    let keys = output_keys(picked);
    sorting::order_is_stable(keys, keys.len());
    let order = sorting::order_of(keys);
    assert(sorting::holds(order, k));
    let i = choose|i: int| 0 <= i < order.len() && #[trigger] order[i] == k;
    assert(output_chunks(cs, budget)[i] == x);
}

/// A chunk outside the archive is left out only where it does not fit: with it
/// what is sent would take more than the budget.
pub proof fn what_is_left_out_does_not_fit(cs: Seq<envelope::ChunkView>, budget: u32, k: int)
    requires
        cs.len() <= usize::MAX,
        critical_tokens(cs) <= budget,
        budget < u32::MAX,
        0 <= k < cs.len(),
        cs[k].layer != ContextLayer::Archive,
        !output_chunks(cs, budget).contains(cs[k]),
    ensures
        chunks_tokens(output_chunks(cs, budget), output_chunks(cs, budget).len() as int)
            + token_estimate::message_tokens(cs[k].message) > budget,
{
    let layer = cs[k].layer;
    let f0 = filled_through(cs, ContextLayer::Active, budget);
    let f1 = filled_through(cs, ContextLayer::Relevant, budget);
    let f2 = filled_through(cs, ContextLayer::Summary, budget);
    let f3 = filled_through(cs, ContextLayer::Background, budget);
    let c1 = candidates(cs, ContextLayer::Relevant);
    let c2 = candidates(cs, ContextLayer::Summary);
    let c3 = candidates(cs, ContextLayer::Background);
    lemma_tokens_natural(f0.picked, f0.picked.len() as int);
    lemma_filled_budget(f0, c1, budget, c1.len() as int);
    lemma_filled_budget(f1, c2, budget, c2.len() as int);
    lemma_filled_budget(f2, c3, budget, c3.len() as int);
    lemma_used_grows(f0, c1, budget, 0, c1.len() as int);
    lemma_used_grows(f1, c2, budget, 0, c2.len() as int);
    lemma_used_grows(f2, c3, budget, 0, c3.len() as int);
    lemma_picked_count(cs, budget);
    let picked = picked_chunks(cs, budget);
    assert(picked == f3.picked);
    let keys = output_keys(picked);
    lemma_sorted_tokens(picked, keys, picked.len());
    if layer == ContextLayer::System || layer == ContextLayer::Active {
        lemma_critical_holds(cs, cs.len() as int, k);
        lemma_picked_is_sent(cs, ContextLayer::Active, budget, cs[k]);
    } else {
        let i = lemma_is_candidate(cs, k);
        let f = filled_before(cs, layer, budget);
        lemma_tried(f, candidates(cs, layer), budget, i);
        if filled_through(cs, layer, budget).picked.contains(cs[k]) {
            lemma_picked_is_sent(cs, layer, budget, cs[k]);
        }
    }
}

proof fn lemma_critical_holds(cs: Seq<envelope::ChunkView>, n: int, k: int)
    requires
        0 <= k < n <= cs.len(),
        cs[k].layer == ContextLayer::System || cs[k].layer == ContextLayer::Active,
    ensures
        critical_chunks(cs, n).contains(cs[k]),
    decreases n,
{
    let all = critical_chunks(cs, n);
    if k == n - 1 {
        assert(all[all.len() - 1] == cs[k]);
    } else {
        lemma_critical_holds(cs, n - 1, k);
        let rest = critical_chunks(cs, n - 1);
        let i = choose|i: int| 0 <= i < rest.len() && #[trigger] rest[i] == cs[k];
        assert(all[i] == cs[k]);
    }
}

/// Every chunk of the system layer and of the round at hand is sent.
pub proof fn system_and_active_are_sent(cs: Seq<envelope::ChunkView>, budget: u32, k: int)
    requires
        cs.len() <= usize::MAX,
        0 <= k < cs.len(),
        cs[k].layer == ContextLayer::System || cs[k].layer == ContextLayer::Active,
    ensures
        output_chunks(cs, budget).contains(cs[k]),
{
    lemma_critical_holds(cs, cs.len() as int, k);
    lemma_picked_is_sent(cs, ContextLayer::Active, budget, cs[k]);
}

/// Of two chunks of one soft layer the first is preferred: in the background
/// the newer one; elsewhere a summary, and of two alike the older one.
pub open spec fn preferred(a: envelope::ChunkView, b: envelope::ChunkView) -> bool {
    if a.layer == ContextLayer::Background {
        a.timestamp > b.timestamp
    } else {
        (a.is_summary && !b.is_summary) || (a.is_summary == b.is_summary && a.timestamp
            < b.timestamp)
    }
}

/// Where a chunk of a soft layer is sent, so is every chunk of that layer that
/// is preferred to it and takes no more tokens.
pub proof fn preferred_chunks_are_sent_first(cs: Seq<envelope::ChunkView>, budget: u32, a: int, b: int)
    requires
        cs.len() <= usize::MAX,
        0 <= a < cs.len(),
        0 <= b < cs.len(),
        cs[a].layer == cs[b].layer,
        cs[a].layer == ContextLayer::Relevant || cs[a].layer == ContextLayer::Summary
            || cs[a].layer == ContextLayer::Background,
        preferred(cs[a], cs[b]),
        token_estimate::message_tokens(cs[a].message) <= token_estimate::message_tokens(
            cs[b].message,
        ),
        output_chunks(cs, budget).contains(cs[b]),
    ensures
        output_chunks(cs, budget).contains(cs[a]),
{
    let layer = cs[a].layer;
    let f = filled_before(cs, layer, budget);
    let cands = candidates(cs, layer);
    let n = cands.len() as int;
    lower_layers_displace_nothing(cs, cs, layer, budget);
    let sent = output_chunks(cs, budget);
    let at = choose|at: int| 0 <= at < sent.len() && sent[at] == cs[b];
    assert(envelope::layer_rank(sent[at].layer) <= envelope::layer_rank(layer));
    let all = filled_through(cs, layer, budget).picked;
    assert(all.contains(cs[b]));
    assert(all == filled_with(f, cands, budget, n).picked);
    let p = choose|p: int| 0 <= p < all.len() && all[p] == cs[b];
    lemma_used_grows(f, cands, budget, 0, n);
    if p < f.picked.len() {
        lemma_before_is_above(cs, layer, budget, p);
        assert(all[p] == f.picked[p]);
        assert(false);
    }
    let j = lemma_pick_source(f, cands, budget, n, p);
    let i = lemma_is_candidate(cs, a);
    lemma_layer_small(cs, layer, cs.len() as int);
    let own = layer_chunks(cs, layer, cs.len() as int);
    let keys = candidate_keys(layer, own);
    sorting::order_is_stable(keys, keys.len());
    let order = sorting::order_of(keys);
    if j < i {
        assert(sorting::goes_before(keys, order[j], order[i]));
        assert(order[i] < keys.len() && order[j] < keys.len());
        assert(own[order[i] as int] == cs[a]);
        assert(own[order[j] as int] == cs[b]);
        assert(keys[order[i] as int].text == keys[order[j] as int].text);
        assert(!text::text_before(Seq::empty(), Seq::empty()));
        assert(false);
    }
    lemma_used_grows(f, cands, budget, i, j);
    lemma_tried(f, cands, budget, i);
    assert(all.contains(cs[a]));
    lemma_picked_is_sent(cs, layer, budget, cs[a]);
}

/// Folding touches the output of tools alone, and of that only what is longer
/// than the threshold; who a message is from and which call it answers stay.
pub proof fn folding_touches_long_tool_output_alone(
    m: message::MessageView,
    threshold: usize,
    placeholder: Seq<char>,
)
    ensures
        ({
            let r = folded_message(m, threshold, placeholder);
            &&& r.role == m.role
            &&& r.tool_call_id == m.tool_call_id
            &&& m.content matches message::ContentView::Text(t) ==> {
                &&& m.role != MessageRole::Tool || t.len() <= threshold ==> r == m
                &&& m.role == MessageRole::Tool && t.len() > threshold ==> r.content
                    == message::ContentView::Text(placeholder)
            }
            &&& m.content matches message::ContentView::Blocks(b) ==> {
                &&& r.content matches message::ContentView::Blocks(c) && c.len() == b.len()
                &&& forall|i: int|
                    0 <= i < b.len() ==> (match #[trigger] b[i] {
                        message::BlockView::ToolResult { tool_use_id, content } => {
                            r.content->Blocks_0[i] == (message::BlockView::ToolResult {
                                tool_use_id,
                                content: if json::json_text(content).len() > threshold {
                                    json::Json::Str(placeholder)
                                } else {
                                    content
                                },
                            })
                        },
                        other => r.content->Blocks_0[i] == other,
                    })
            }
        }),
{
}

/// Each message is folded in its place.
pub proof fn messages_are_folded_in_place(
    ms: Seq<message::MessageView>,
    threshold: usize,
    placeholder: Seq<char>,
    i: int,
)
    requires
        0 <= i < ms.len(),
    ensures
        folded_messages(ms, threshold, placeholder).len() == ms.len(),
        folded_messages(ms, threshold, placeholder)[i] == folded_message(
            ms[i],
            threshold,
            placeholder,
        ),
{
}

/// Folding a chunk folds its message and changes nothing else.
pub proof fn chunks_are_folded_in_place(
    cs: Seq<envelope::ChunkView>,
    threshold: usize,
    placeholder: Seq<char>,
    i: int,
)
    requires
        0 <= i < cs.len(),
    ensures
        folded_chunks(cs, threshold, placeholder).len() == cs.len(),
        ({
            let r = folded_chunks(cs, threshold, placeholder)[i];
            &&& r.layer == cs[i].layer
            &&& r.timestamp == cs[i].timestamp
            &&& r.chunk_id == cs[i].chunk_id
            &&& r.is_summary == cs[i].is_summary
            &&& r.message == folded_message(cs[i].message, threshold, placeholder)
        }),
{
}

/// The places of the blocks that hold a tool result longer than the threshold.
pub open spec fn long_results(b: Seq<message::BlockView>, threshold: usize, n: int) -> Set<int> {
    Set::new(
        |i: int|
            0 <= i < n && (b[i] matches message::BlockView::ToolResult { tool_use_id: _, content }
                && json::json_text(content).len() > threshold),
    )
}

/// As many segments of a message are counted as folded as are replaced in it.
pub proof fn folded_segments_are_counted(m: message::MessageView, threshold: usize)
    ensures
        m.content matches message::ContentView::Text(t) ==> message_folds(m, threshold) == (if m.role
            == MessageRole::Tool && t.len() > threshold {
            1nat
        } else {
            0
        }),
        m.content matches message::ContentView::Blocks(b) ==> message_folds(m, threshold)
            == long_results(b, threshold, b.len() as int).len(),
{
    if let message::ContentView::Blocks(b) = m.content {
        lemma_folds_counted(b, threshold, b.len() as int);
    }
}

proof fn lemma_folds_counted(b: Seq<message::BlockView>, threshold: usize, n: int)
    requires
        0 <= n <= b.len(),
    ensures
        long_results(b, threshold, n).finite(),
        long_results(b, threshold, n).len() == blocks_folded(b, threshold, n),
    decreases n,
{
    if n > 0 {
        lemma_folds_counted(b, threshold, n - 1);
        let rest = long_results(b, threshold, n - 1);
        if block_folds(b[n - 1], threshold) {
            assert(long_results(b, threshold, n) =~= rest.insert(n - 1));
        } else {
            assert(long_results(b, threshold, n) =~= rest);
        }
    } else {
        assert(long_results(b, threshold, n) =~= Set::empty());
    }
}

/// The folded segments of a list are those of its messages together.
pub proof fn folded_segments_add_up(
    ms: Seq<message::MessageView>,
    m: message::MessageView,
    threshold: usize,
)
    ensures
        messages_folded(Seq::empty(), threshold, 0) == 0,
        messages_folded(ms.push(m), threshold, (ms.len() + 1) as int) == messages_folded(
            ms,
            threshold,
            ms.len() as int,
        ) + message_folds(m, threshold),
{
    lemma_messages_folded_same(ms, ms.push(m), threshold, ms.len() as int);
}

proof fn lemma_messages_folded_same(
    a: Seq<message::MessageView>,
    b: Seq<message::MessageView>,
    threshold: usize,
    n: int,
)
    requires
        0 <= n <= a.len(),
        n <= b.len(),
        forall|i: int| 0 <= i < n ==> a[i] == b[i],
    ensures
        messages_folded(a, threshold, n) == messages_folded(b, threshold, n),
    decreases n,
{
    if n > 0 {
        lemma_messages_folded_same(a, b, threshold, n - 1);
    }
}

/// What must fit is what the system layer and the round at hand take together:
/// a further chunk adds its tokens where it is of one of these, and nothing
/// otherwise.
pub proof fn critical_layers_must_fit(cs: Seq<envelope::ChunkView>, c: envelope::ChunkView)
    requires
        critical_tokens(cs) < u32::MAX,
    ensures
        critical_tokens(Seq::empty()) == 0,
        critical_tokens(cs.push(c)) == (if c.layer == ContextLayer::System || c.layer
            == ContextLayer::Active {
            token_estimate::capped(
                critical_tokens(cs) + token_estimate::message_tokens(c.message),
            )
        } else {
            critical_tokens(cs)
        }),
{
    let n = cs.len() as int;
    lemma_critical_same(cs, cs.push(c), n);
    let old_part = critical_chunks(cs, n);
    let all = critical_chunks(cs.push(c), n + 1);
    lemma_tokens_natural(old_part, old_part.len() as int);
    if c.layer == ContextLayer::System || c.layer == ContextLayer::Active {
        assert(all == old_part.push(c));
        lemma_tokens_prefix(old_part, all, old_part.len() as int);
    }
    assert(critical_chunks(Seq::empty(), 0).len() == 0);
}

proof fn lemma_critical_same(a: Seq<envelope::ChunkView>, b: Seq<envelope::ChunkView>, n: int)
    requires
        0 <= n <= a.len(),
        n <= b.len(),
        forall|i: int| 0 <= i < n ==> a[i] == b[i],
    ensures
        critical_chunks(a, n) == critical_chunks(b, n),
    decreases n,
{
    if n > 0 {
        lemma_critical_same(a, b, n - 1);
    }
}

/// The tokens of chunks are those of their messages together.
pub proof fn chunk_tokens_add_up(cs: Seq<envelope::ChunkView>, c: envelope::ChunkView)
    ensures
        chunks_tokens(Seq::empty(), 0) == 0,
        chunks_tokens(cs.push(c), (cs.len() + 1) as int) == chunks_tokens(cs, cs.len() as int)
            + token_estimate::message_tokens(c.message),
{
    lemma_tokens_prefix(cs, cs.push(c), cs.len() as int);
}

/// The tokens of a window are those of its messages together.
pub proof fn window_tokens_add_up(ms: Seq<message::MessageView>, s: int, e: int)
    requires
        0 <= s < e <= ms.len(),
    ensures
        window_tokens(ms, s, s) == 0,
        window_tokens(ms, s, e) == token_estimate::message_tokens(ms[s]) + window_tokens(
            ms,
            s + 1,
            e,
        ),
{
    lemma_window_front(ms, s, e);
}

/// The message of each chunk, in the chunks' order, is what is sent.
pub proof fn chunk_messages_keep_their_order(cs: Seq<envelope::ChunkView>, i: int)
    requires
        0 <= i < cs.len(),
    ensures
        chunk_messages(cs).len() == cs.len(),
        chunk_messages(cs)[i] == cs[i].message,
{
}

/// Where all messages fit the budget, all are kept but the outputs of tools at
/// the very front.
pub proof fn everything_is_kept_where_it_fits(
    ms: Seq<message::MessageView>,
    budget: u32,
    min_tail: usize,
    j: int,
)
    requires
        ms.len() > 0,
        window_tokens(ms, 0, ms.len() as int) <= budget,
        0 <= j < suffix_start(ms, budget, min_tail),
    ensures
        ms[j].role == MessageRole::Tool,
{
    if ms[j].role != MessageRole::Tool {
        longer_suffix_does_not_fit(ms, budget, min_tail, j);
        lemma_window_shrinks(ms, 0, j);
    }
}

/// Every message is either kept or dropped at the front; only an empty list is
/// refused.
pub proof fn messages_are_kept_or_dropped(
    messages: &Vec<Message>,
    options: &AssembleOptions,
    r: Result<AssembleReport, AssembleError>,
)
    requires
        call_ensures(MessageAssembler::assemble, (messages, options), r),
    ensures
        r is Err <==> messages@.len() == 0,
        r matches Err(e) ==> e == AssembleError::EmptyInput,
        r matches Ok(report) ==> {
            &&& report.dropped_prefix + report.messages@.len() == messages@.len()
            &&& forall|i: int|
                0 <= i < report.messages@.len() ==> (#[trigger] report.messages@[i])@
                    == folded_message(
                    messages@[report.dropped_prefix + i]@,
                    options.tool_fold_threshold_chars,
                    options.tool_placeholder@,
                )
            &&& report.messages@.len() > 0 ==> report.messages@[0].role != MessageRole::Tool
        },
{
    if let Ok(report) = r {
        let views = message::message_views(messages@);
        let folded = folded_messages(
            views,
            options.tool_fold_threshold_chars,
            options.tool_placeholder@,
        );
        let start = suffix_start(
            folded,
            options.budget.max_input_tokens,
            options.budget.min_tail_messages,
        );
        let kept = message::message_views(report.messages@);
        assert(kept.len() == report.messages@.len());
        assert forall|i: int| 0 <= i < report.messages@.len() implies (
        #[trigger] report.messages@[i])@ == folded_message(
            messages@[report.dropped_prefix + i]@,
            options.tool_fold_threshold_chars,
            options.tool_placeholder@,
        ) by {
            assert(kept[i] == report.messages@[i]@);
            assert(kept[i] == folded[start + i]);
        }
        suffix_never_starts_with_tool(
            folded,
            options.budget.max_input_tokens,
            options.budget.min_tail_messages,
        );
        if report.messages@.len() > 0 {
            assert(kept[0] == report.messages@[0]@);
            assert(kept[0] == folded[start]);
        }
    }
}

/// Assembly by layers fails for want of chunks, or where the critical layers
/// alone exceed the budget, and never else. What is not sent counts as dropped.
pub proof fn layers_fail_only_where_critical_ones_do(
    chunks: &Vec<MessageChunk>,
    options: &LayeredAssembleOptions,
    r: Result<AssembleReport, AssembleError>,
)
    requires
        call_ensures(MessageAssembler::assemble_layered, (chunks, options), r),
    ensures
        ({
            let work = folded_chunks(
                envelope::chunk_views(chunks@),
                options.tool_fold_threshold_chars,
                options.tool_placeholder@,
            );
            let budget = options.budget.max_input_tokens;
            &&& chunks@.len() == 0 ==> r == Err::<AssembleReport, AssembleError>(
                AssembleError::EmptyInput,
            )
            &&& chunks@.len() > 0 && critical_tokens(work) > budget ==> r == Err::<
                AssembleReport,
                AssembleError,
            >(
                AssembleError::HardBudgetViolation {
                    critical_tokens: critical_tokens(work),
                    budget,
                },
            )
            &&& chunks@.len() > 0 && critical_tokens(work) <= budget ==> (r matches Ok(report)
                && report.dropped_prefix + report.messages@.len() == chunks@.len()
                && report.messages@.len() == output_chunks(work, budget).len() && forall|i: int|
                0 <= i < report.messages@.len() ==> (#[trigger] report.messages@[i])@
                    == output_chunks(work, budget)[i].message)
        }),
{
    if let Ok(report) = r {
        let sent = message::message_views(report.messages@);
        assert(sent.len() == report.messages@.len());
        assert forall|i: int| 0 <= i < report.messages@.len() implies (
        #[trigger] report.messages@[i])@ == sent[i] by {}
    }
}

} // verus!
