//! Small helpers shared by drivers and event mapping.

pub mod thinking_extract;
