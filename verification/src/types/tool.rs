//! Tools that a model may call, its calls, and their results.

use crate::json;
use crate::json::JsonValue;
use vstd::prelude::*;

verus! {

/// A call that a model asks for.
#[derive(Debug, Clone)]
pub struct ToolCall {
    pub id: String,
    pub name: String,
    pub arguments: JsonValue,
}

/// What a tool call is.
pub struct ToolCallView {
    pub id: Seq<char>,
    pub name: Seq<char>,
    pub arguments: json::Json,
}

impl View for ToolCall {
    type V = ToolCallView;

    open spec fn view(&self) -> ToolCallView {
        ToolCallView { id: self.id@, name: self.name@, arguments: self.arguments@ }
    }
}

/// The views of calls, in order.
pub open spec fn call_views(v: Seq<ToolCall>) -> Seq<ToolCallView> {
    Seq::new(v.len(), |i: int| v[i]@)
}

impl ToolCall {
    /// The same call again.
    pub fn copy(&self) -> (r: Self)
        ensures
            r@ == self@,
    {
        ToolCall {
            id: self.id.clone(),
            name: self.name.clone(),
            arguments: self.arguments.copy(),
        }
    }
}

/// The same calls again.
pub fn copy_calls(calls: &Vec<ToolCall>) -> (r: Vec<ToolCall>)
    ensures
        call_views(r@) == call_views(calls@),
{
    let mut out: Vec<ToolCall> = Vec::new();
    let mut i: usize = 0;
    while i < calls.len()
        invariant
            i <= calls@.len(),
            out@.len() == i,
            forall|k: int| 0 <= k < i ==> #[trigger] out@[k]@ == calls@[k]@,
        decreases calls@.len() - i,
    {
        out.push(calls[i].copy());
        i += 1;
    }
    assert(call_views(out@) =~= call_views(calls@));
    out
}

/// The function behind a tool.
#[derive(Debug, Clone)]
pub struct FunctionDefinition {
    pub name: String,
    pub description: Option<String>,
    pub parameters: Option<JsonValue>,
}

/// A tool offered to the model.
#[derive(Debug, Clone)]
pub struct ToolDefinition {
    pub tool_type: String,
    pub function: FunctionDefinition,
}

/// What a tool gave back.
#[derive(Debug, Clone)]
pub struct ToolResult {
    pub tool_use_id: String,
    pub content: JsonValue,
    pub is_error: bool,
}

} // verus!
