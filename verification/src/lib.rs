//! Protocol runtime for AI provider manifests: the decisions, parsers and
//! state machines behind chat, tool calling, context assembly, transport and
//! the embeddable WASM surface, each with a contract that Verus proves.

pub mod client;
pub mod context;
pub mod credentials;
pub mod drivers;
pub mod embeddings;
pub mod error;
pub mod error_code;
pub mod generative;
pub mod json;
pub mod pattern;
pub mod pipeline;
pub mod protocol;
pub mod record;
pub mod rerank;
pub mod sorting;
pub mod table;
pub mod text;
pub mod tokens;
pub mod transport;
pub mod tts;
pub mod types;
pub mod utils;
pub mod wasm;
