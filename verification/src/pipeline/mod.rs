//! What a stream pipeline is held to.

pub mod compliance;
