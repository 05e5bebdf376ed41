//! Messages with the layer they belong to.

use crate::types::message;
use crate::types::message::Message;
use std::cmp::Ordering;
use vstd::prelude::*;

verus! {

/// How important a piece of context is; a lesser layer is kept first.
#[derive(Debug, Clone, Copy, PartialEq, Eq, Structural, Ord, Hash)]
pub enum ContextLayer {
    /// System prompt, tools and constraints. Critical.
    System,
    /// The round at hand. Critical.
    Active,
    /// Material retrieved for the round at hand.
    Relevant,
    /// Summaries.
    Summary,
    /// Ordinary history, the oldest dropped first.
    Background,
    /// References that never become part of the payload.
    Archive,
}

/// The place of a layer in the order of importance.
pub open spec fn layer_rank(layer: ContextLayer) -> u8 {
    match layer {
        ContextLayer::System => 0,
        ContextLayer::Active => 1,
        ContextLayer::Relevant => 2,
        ContextLayer::Summary => 3,
        ContextLayer::Background => 4,
        ContextLayer::Archive => 5,
    }
}

/// The layer must fit, or assembly fails.
pub open spec fn critical(layer: ContextLayer) -> bool {
    layer == ContextLayer::System || layer == ContextLayer::Active
}

impl ContextLayer {
    /// The layer at a place in the order of importance.
    pub fn from_u8(value: u8) -> (r: Option<Self>)
        ensures
            match r {
                Some(l) => layer_rank(l) == value,
                None => value > 5,
            },
    {
        match value {
            0 => Some(ContextLayer::System),
            1 => Some(ContextLayer::Active),
            2 => Some(ContextLayer::Relevant),
            3 => Some(ContextLayer::Summary),
            4 => Some(ContextLayer::Background),
            5 => Some(ContextLayer::Archive),
            _ => None,
        }
    }

    /// The place of the layer in the order of importance.
    pub fn as_u8(self) -> (r: u8)
        ensures
            r == layer_rank(self),
    {
        match self {
            ContextLayer::System => 0,
            ContextLayer::Active => 1,
            ContextLayer::Relevant => 2,
            ContextLayer::Summary => 3,
            ContextLayer::Background => 4,
            ContextLayer::Archive => 5,
        }
    }

    /// Whether the layer must fit.
    pub fn is_critical(self) -> (r: bool)
        ensures
            r == critical(self),
    {
        matches!(self, ContextLayer::System | ContextLayer::Active)
    }
}

/// How one layer stands to another by their places.
pub open spec fn layer_order(a: ContextLayer, b: ContextLayer) -> Ordering {
    if layer_rank(a) < layer_rank(b) {
        Ordering::Less
    } else if layer_rank(a) == layer_rank(b) {
        Ordering::Equal
    } else {
        Ordering::Greater
    }
}

impl PartialOrd for ContextLayer {
    fn partial_cmp(&self, other: &Self) -> (r: Option<Ordering>) {
        let (a, b) = (self.as_u8(), other.as_u8());
        if a < b {
            Some(Ordering::Less)
        } else if a == b {
            Some(Ordering::Equal)
        } else {
            Some(Ordering::Greater)
        }
    }
}

impl vstd::std_specs::cmp::PartialOrdSpecImpl for ContextLayer {
    open spec fn obeys_partial_cmp_spec() -> bool {
        true
    }

    open spec fn partial_cmp_spec(&self, other: &Self) -> Option<Ordering> {
        Some(layer_order(*self, *other))
    }
}

/// Layers are ordered by their places: a lower place is a higher priority.
pub proof fn lower_place_is_lesser(a: ContextLayer, b: ContextLayer)
    ensures
        vstd::std_specs::cmp::PartialOrdSpec::partial_cmp_spec(&a, &b) == Some(Ordering::Less)
            <==> layer_rank(a) < layer_rank(b),
        vstd::std_specs::cmp::PartialOrdSpec::partial_cmp_spec(&a, &b) == Some(Ordering::Equal)
            <==> a == b,
        vstd::std_specs::cmp::PartialOrdSpec::partial_cmp_spec(&a, &b) == Some(Ordering::Greater)
            <==> layer_rank(a) > layer_rank(b),
{
}

/// A layer's place leads back to the layer.
pub proof fn layer_numbers_are_distinct(a: ContextLayer, b: ContextLayer)
    requires
        layer_rank(a) == layer_rank(b),
    ensures
        a == b,
{
}

/// A message in its layer.
#[derive(Debug, Clone)]
pub struct MessageChunk {
    pub layer: ContextLayer,
    /// Orders chunks within a layer; larger is newer.
    pub timestamp: u64,
    pub message: Message,
    /// Preferred where summaries or relevant material get thinned out.
    pub is_summary: bool,
    pub chunk_id: String,
}

/// What a chunk is.
pub struct ChunkView {
    pub layer: ContextLayer,
    pub timestamp: u64,
    pub message: message::MessageView,
    pub is_summary: bool,
    pub chunk_id: Seq<char>,
}

impl View for MessageChunk {
    type V = ChunkView;

    open spec fn view(&self) -> ChunkView {
        ChunkView {
            layer: self.layer,
            timestamp: self.timestamp,
            message: self.message@,
            is_summary: self.is_summary,
            chunk_id: self.chunk_id@,
        }
    }
}

/// The views of chunks, in order.
pub open spec fn chunk_views(v: Seq<MessageChunk>) -> Seq<ChunkView> {
    Seq::new(v.len(), |i: int| v[i]@)
}

impl MessageChunk {
    /// A chunk that is no summary.
    pub fn new(layer: ContextLayer, timestamp: u64, message: Message, chunk_id: &str) -> (r: Self)
        ensures
            r@ == (ChunkView {
                layer,
                timestamp,
                message: message@,
                is_summary: false,
                chunk_id: chunk_id@,
            }),
    {
        MessageChunk {
            layer,
            timestamp,
            message,
            is_summary: false,
            chunk_id: chunk_id.to_string(),
        }
    }

    /// The chunk marked as a summary or not.
    pub fn with_summary(self, is_summary: bool) -> (r: Self)
        ensures
            r@ == (ChunkView { is_summary, ..self@ }),
    {
        MessageChunk { is_summary, ..self }
    }

    /// The same chunk again.
    pub fn copy(&self) -> (r: Self)
        ensures
            r@ == self@,
    {
        MessageChunk {
            layer: self.layer,
            timestamp: self.timestamp,
            message: self.message.copy(),
            is_summary: self.is_summary,
            chunk_id: self.chunk_id.clone(),
        }
    }
}

/// In what order soft layers are filled.
#[derive(Debug, Clone, Copy, PartialEq, Eq, Structural)]
pub enum AssembleStrategy {
    /// Relevant material, then summaries, then background.
    Chat,
    /// The same order; relevant material wins over summaries.
    CodeFix,
}

impl Default for AssembleStrategy {
    fn default() -> (r: Self)
        ensures
            r == AssembleStrategy::Chat,
    {
        AssembleStrategy::Chat
    }
}

/// The system layer counts most, then the round at hand, relevant material,
/// summaries, background and the archive.
pub proof fn layers_go_by_importance()
    ensures
        layer_rank(ContextLayer::System) == 0,
        layer_rank(ContextLayer::Active) == 1,
        layer_rank(ContextLayer::Relevant) == 2,
        layer_rank(ContextLayer::Summary) == 3,
        layer_rank(ContextLayer::Background) == 4,
        layer_rank(ContextLayer::Archive) == 5,
        forall|l: ContextLayer| #[trigger] critical(l) <==> layer_rank(l) < 2,
{
}

/// The view of a chunk tells everything about it.
pub proof fn chunks_are_seen_whole(c: MessageChunk)
    ensures
        c@.layer == c.layer,
        c@.timestamp == c.timestamp,
        c@.message == c.message@,
        c@.is_summary == c.is_summary,
        c@.chunk_id == c.chunk_id@,
{
}

/// The chunks of a list are seen each in its place.
pub proof fn chunks_are_seen_in_order(v: Seq<MessageChunk>, i: int)
    requires
        0 <= i < v.len(),
    ensures
        chunk_views(v).len() == v.len(),
        chunk_views(v)[i] == v[i]@,
{
}

} // verus!
