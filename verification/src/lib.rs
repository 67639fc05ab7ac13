//! Secret-Santa matching: a verified engine that pairs each participant
//! with a gift recipient, honoring no-self-gifting and pairwise
//! exclusion constraints.

pub mod assignment;
pub mod avoid;
pub mod engine;
pub mod laws;
pub mod participant;
pub mod rng;
