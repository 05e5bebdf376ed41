//! Finding a provider's operations and services, and what their answers mean.

pub mod endpoint;
pub mod exchange;
