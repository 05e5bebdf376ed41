//! Provider manifests, and where they come from.

pub mod cache;
pub mod loader;
pub mod manifest;
pub mod metadata_model;
pub mod request_defaults;
