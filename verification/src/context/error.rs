//! What can go wrong when a context is assembled.

use crate::text;
use vstd::prelude::*;

verus! {

/// Why a context was not assembled.
#[derive(PartialEq, Eq, Structural, Clone, Copy, Debug)]
pub enum AssembleError {
    /// There is nothing to assemble.
    EmptyInput,
    /// The critical layers do not fit; they are never stripped.
    HardBudgetViolation { critical_tokens: u32, budget: u32 },
    /// As many assemblies run as the pool allows.
    QueueFull { max_in_flight: usize },
    /// The assembly took longer than the pool allows.
    Timeout { timeout_ms: u64 },
    /// The worker ended without a result.
    WorkerFailed,
}

/// The text of an error.
pub open spec fn error_text(e: AssembleError) -> Seq<char> {
    match e {
        AssembleError::EmptyInput => "no messages to assemble"@,
        AssembleError::HardBudgetViolation { critical_tokens, budget } =>
            "hard budget violation: critical layers need "@ + text::decimal(critical_tokens as nat)
            + " tokens but budget is "@ + text::decimal(budget as nat),
        AssembleError::QueueFull { max_in_flight } => "assemble queue full (max_in_flight="@
            + text::decimal(max_in_flight as nat) + ")"@,
        AssembleError::Timeout { timeout_ms } => "assemble timed out after "@ + text::decimal(
            timeout_ms as nat,
        ) + "ms"@,
        AssembleError::WorkerFailed => "assemble worker failed"@,
    }
}

impl AssembleError {
    /// The text of the error.
    pub fn message(&self) -> (r: String)
        ensures
            r@ == error_text(*self),
    {
        match self {
            AssembleError::EmptyInput => "no messages to assemble".to_string(),
            AssembleError::HardBudgetViolation { critical_tokens, budget } => {
                let mut s = text::cat(
                    "hard budget violation: critical layers need ",
                    text::decimal_text(*critical_tokens as u64).as_str(),
                );
                s.append(" tokens but budget is ");
                s.append(text::decimal_text(*budget as u64).as_str());
                s
            },
            AssembleError::QueueFull { max_in_flight } => {
                let mut s = text::cat(
                    "assemble queue full (max_in_flight=",
                    text::decimal_text(*max_in_flight as u64).as_str(),
                );
                s.append(")");
                s
            },
            AssembleError::Timeout { timeout_ms } => {
                let mut s = text::cat(
                    "assemble timed out after ",
                    text::decimal_text(*timeout_ms).as_str(),
                );
                s.append("ms");
                s
            },
            AssembleError::WorkerFailed => "assemble worker failed".to_string(),
        }
    }
}

/// The text of an error gives its numbers: what is needed and what there is, how
/// many jobs run, or how long was waited.
pub proof fn error_texts_give_their_numbers(a: u32, b: u32, n: usize, t: u64)
    ensures
        error_text(AssembleError::HardBudgetViolation { critical_tokens: a, budget: b })
            == "hard budget violation: critical layers need "@ + text::decimal(a as nat)
            + " tokens but budget is "@ + text::decimal(b as nat),
        error_text(AssembleError::QueueFull { max_in_flight: n })
            == "assemble queue full (max_in_flight="@ + text::decimal(n as nat) + ")"@,
        error_text(AssembleError::Timeout { timeout_ms: t }) == "assemble timed out after "@
            + text::decimal(t as nat) + "ms"@,
{
}

} // verus!
