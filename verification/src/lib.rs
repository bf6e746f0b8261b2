//! Resolves a multi-language book configuration into one build job per
//! language and drives the external build engine over them in order.
//!
//! The configuration tree is modelled as a tagged value tree ([`value`]),
//! resolution of that tree into per-language jobs lives in [`config`], and
//! the sequential build driver lives in [`orchestrator`].

pub mod config;
pub mod orchestrator;
pub mod value;
