//! Reaching providers over HTTP: routes, authentication and URLs.

pub mod ancillary;
pub mod http;
