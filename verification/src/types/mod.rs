//! Messages, tools, events and the text dialects that models write them in.

pub mod content_encode;
pub mod events;
pub mod generative;
pub mod message;
pub mod text_tool;
pub mod think_dialect;
pub mod tool;
