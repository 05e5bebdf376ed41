//! What tokens cost.

pub mod pricing;
