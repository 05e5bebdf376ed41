//! What a stream says, piece by piece.

use vstd::prelude::*;

verus! {

/// One event of a stream.
#[derive(Debug)]
pub enum StreamingEvent {
    /// More of the visible answer.
    PartialContentDelta { content: String, sequence_id: Option<u64> },
    /// More of the thinking behind it.
    ThinkingDelta { thinking: String, tool_consideration: Option<String> },
    /// The end, and why.
    StreamEnd { finish_reason: Option<String> },
}

/// What an event says.
pub enum EventView {
    PartialContentDelta { content: Seq<char>, sequence_id: Option<u64> },
    ThinkingDelta { thinking: Seq<char>, tool_consideration: Option<Seq<char>> },
    StreamEnd { finish_reason: Option<Seq<char>> },
}

impl View for StreamingEvent {
    type V = EventView;

    open spec fn view(&self) -> EventView {
        match self {
            StreamingEvent::PartialContentDelta { content, sequence_id } =>
                EventView::PartialContentDelta { content: content@, sequence_id: *sequence_id },
            StreamingEvent::ThinkingDelta { thinking, tool_consideration } =>
                EventView::ThinkingDelta {
                thinking: thinking@,
                tool_consideration: crate::text::opt_text(*tool_consideration),
            },
            StreamingEvent::StreamEnd { finish_reason } => EventView::StreamEnd {
                finish_reason: crate::text::opt_text(*finish_reason),
            },
        }
    }
}

/// The views of events, in order.
pub open spec fn event_views(v: Seq<StreamingEvent>) -> Seq<EventView> {
    Seq::new(v.len(), |i: int| v[i]@)
}

} // verus!
