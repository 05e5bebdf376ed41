//! Token budgets.

use vstd::prelude::*;

verus! {

/// How many tokens a model takes and gives.
#[derive(Debug, Clone, Copy)]
pub struct ModelCapacity {
    pub context_window: u32,
    pub max_output_tokens: u32,
}

impl ModelCapacity {
    /// A capacity with the given limits.
    pub fn new(context_window: u32, max_output_tokens: u32) -> (r: Self)
        ensures
            r.context_window == context_window,
            r.max_output_tokens == max_output_tokens,
    {
        ModelCapacity { context_window, max_output_tokens }
    }

    /// The capacity taken for a model that nothing is known of.
    pub fn unknown() -> (r: Self)
        ensures
            r.context_window == 8_192,
            r.max_output_tokens == 1_024,
    {
        ModelCapacity { context_window: 8_192, max_output_tokens: 1_024 }
    }
}

/// What the input may take up, and how many messages are kept whatever they take.
#[derive(Debug, Clone, Copy)]
pub struct ContextBudget {
    pub max_input_tokens: u32,
    pub reserve_output_tokens: u32,
    pub min_tail_messages: usize,
}

impl ContextBudget {
    /// A budget with the given limits.
    pub fn new(
        max_input_tokens: u32,
        reserve_output_tokens: u32,
        min_tail_messages: usize,
    ) -> (r: Self)
        ensures
            r.max_input_tokens == max_input_tokens,
            r.reserve_output_tokens == reserve_output_tokens,
            r.min_tail_messages == min_tail_messages,
    {
        ContextBudget { max_input_tokens, reserve_output_tokens, min_tail_messages }
    }

    /// The budget that a model's capacity leaves for input once room for the
    /// longest answer is set aside.
    pub fn from_capacity(capacity: ModelCapacity, min_tail_messages: usize) -> (r: Self)
        ensures
            r.max_input_tokens == (if capacity.context_window >= capacity.max_output_tokens {
                capacity.context_window - capacity.max_output_tokens
            } else {
                0
            }),
            r.reserve_output_tokens == capacity.max_output_tokens,
            r.min_tail_messages == min_tail_messages,
    {
        let max_input_tokens: u32 = if capacity.context_window >= capacity.max_output_tokens {
            capacity.context_window - capacity.max_output_tokens
        } else {
            0
        };
        ContextBudget {
            max_input_tokens,
            reserve_output_tokens: capacity.max_output_tokens,
            min_tail_messages,
        }
    }
}

/// Input and the longest answer together fill the context window, and where the
/// answer alone fills it no room is left for input.
pub proof fn budget_and_answer_fill_the_window(
    capacity: ModelCapacity,
    min_tail_messages: usize,
    r: ContextBudget,
)
    requires
        call_ensures(ContextBudget::from_capacity, (capacity, min_tail_messages), r),
    ensures
        capacity.max_output_tokens <= capacity.context_window ==> r.max_input_tokens
            + r.reserve_output_tokens == capacity.context_window,
        capacity.max_output_tokens > capacity.context_window ==> r.max_input_tokens == 0,
        r.reserve_output_tokens == capacity.max_output_tokens,
        r.min_tail_messages == min_tail_messages,
{
}

} // verus!
