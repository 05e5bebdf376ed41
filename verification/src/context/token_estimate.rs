//! Estimating tokens from text length.

use crate::json;
use crate::text;
use crate::types::message;
use crate::types::message::{ContentBlock, Message, MessageContent};
use vstd::prelude::*;

verus! {

/// Characters taken to make one token.
pub const CHARS_PER_TOKEN: usize = 4;

/// Tokens that every message takes beside its content.
pub const MESSAGE_OVERHEAD_TOKENS: u32 = 4;

/// A count that stops at the largest `u32`.
pub open spec fn capped(n: int) -> u32 {
    if n > u32::MAX {
        u32::MAX
    } else {
        n as u32
    }
}

/// Tokens of a text: its characters in steps of `CHARS_PER_TOKEN`, a started
/// step counted whole.
pub open spec fn tokens_of(s: Seq<char>) -> u32 {
    capped((s.len() + CHARS_PER_TOKEN - 1) / (CHARS_PER_TOKEN as int))
}

/// Tokens of a block: those of its text, or of its JSON.
pub open spec fn block_tokens(b: message::BlockView) -> u32 {
    match b {
        message::BlockView::Text { text } => tokens_of(text),
        _ => tokens_of(json::json_text(message::block_json(b))),
    }
}

/// Tokens of the first `n` blocks.
pub open spec fn blocks_tokens(b: Seq<message::BlockView>, n: int) -> u32
    decreases n,
{
    if n <= 0 {
        0
    } else {
        capped(blocks_tokens(b, n - 1) + block_tokens(b[n - 1]))
    }
}

/// Tokens of a message.
pub open spec fn message_tokens(m: message::MessageView) -> u32 {
    let content = match m.content {
        message::ContentView::Text(t) => tokens_of(t),
        message::ContentView::Blocks(b) => blocks_tokens(b, b.len() as int),
    };
    capped(content + MESSAGE_OVERHEAD_TOKENS)
}

/// The sum, stopping at the largest `u32`.
pub fn add_capped(a: u32, b: u32) -> (r: u32)
    ensures
        r == capped(a + b),
{
    if a > u32::MAX - b {
        u32::MAX
    } else {
        a + b
    }
}

/// Tokens of a text.
pub fn estimate_tokens(s: &str) -> (r: u32)
    ensures
        r == tokens_of(s@),
{
    let n: usize = s.unicode_len();
    let steps: usize = n / CHARS_PER_TOKEN;
    let tokens: usize = if n % CHARS_PER_TOKEN == 0 {
        steps
    } else {
        steps + 1
    };
    if tokens as u64 > u32::MAX as u64 {
        u32::MAX
    } else {
        tokens as u32
    }
}

fn estimate_block_tokens(b: &ContentBlock) -> (r: u32)
    ensures
        r == block_tokens(b@),
{
    match b {
        ContentBlock::Text { text } => estimate_tokens(text.as_str()),
        other => estimate_tokens(json::render(&other.to_json()).as_str()),
    }
}

/// Tokens of a message.
pub fn estimate_message_tokens(m: &Message) -> (r: u32)
    ensures
        r == message_tokens(m@),
{
    let content: u32 = match &m.content {
        MessageContent::Text(t) => estimate_tokens(t.as_str()),
        MessageContent::Blocks(b) => {
            let ghost views = message::block_views(b@);
            let mut sum: u32 = 0;
            let mut i: usize = 0;
            while i < b.len()
                invariant
                    i <= b@.len(),
                    views == message::block_views(b@),
                    sum == blocks_tokens(views, i as int),
                decreases b@.len() - i,
            {
                assert(views[i as int] == b@[i as int]@);
                sum = add_capped(sum, estimate_block_tokens(&b[i]));
                i += 1;
            }
            sum
        },
    };
    add_capped(content, MESSAGE_OVERHEAD_TOKENS)
}

/// A text takes the least number of tokens whose four characters each cover it.
pub proof fn tokens_cover_the_text(s: Seq<char>)
    requires
        s.len() <= u32::MAX,
    ensures
        4 * tokens_of(s) >= s.len(),
        s.len() > 0 ==> 4 * (tokens_of(s) - 1) < s.len(),
        s.len() == 0 ==> tokens_of(s) == 0,
{
}

/// A message takes four tokens more than its content, and a further block adds
/// its own.
pub proof fn message_tokens_add_up(m: message::MessageView)
    ensures
        m.content matches message::ContentView::Text(t) ==> message_tokens(m) == capped(
            tokens_of(t) + 4,
        ),
        m.content matches message::ContentView::Blocks(b) ==> message_tokens(m) == capped(
            blocks_tokens(b, b.len() as int) + 4,
        ),
{
}

/// The tokens of blocks are those of each together: a text block's are those of
/// its text, another's those of its JSON.
pub proof fn block_tokens_add_up(b: Seq<message::BlockView>, n: int)
    requires
        0 <= n < b.len(),
    ensures
        blocks_tokens(b, 0) == 0,
        blocks_tokens(b, n + 1) == capped(
            blocks_tokens(b, n) + (match b[n] {
                message::BlockView::Text { text } => tokens_of(text),
                other => tokens_of(json::json_text(message::block_json(other))),
            }),
        ),
{
}

/// Counting goes up to the largest `u32` and stops there.
pub proof fn counting_stops_at_the_largest(n: int)
    requires
        n >= 0,
    ensures
        capped(n) <= n,
        n <= u32::MAX ==> capped(n) == n,
        n > u32::MAX ==> capped(n) == u32::MAX,
{
}

} // verus!
