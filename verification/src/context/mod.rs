//! Fitting a conversation into a model's input budget, without network access
//! and without summarising.
//!
//! [`assembler::MessageAssembler::assemble_layered`] decides; the pool only
//! bounds how many assemblies run at once and for how long.

pub mod assemble_async;
pub mod assembler;
pub mod budget;
pub mod envelope;
pub mod error;
pub mod layer_promotion;
pub mod token_estimate;
