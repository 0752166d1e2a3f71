//! A teaching library for message-broker delivery semantics.
//!
//! The crate models, and verifies, the logic of a set of broker labs: a
//! hierarchical configuration resolver, an outbound-record builder, a
//! deterministic failure injector, and a delivery-semantics engine that
//! tracks the gap between "delivered to the application" and "durably
//! committed" under pre-commit, post-commit and stubbed transactional
//! commit policies.

pub mod config;
pub mod engine;
pub mod event;
pub mod failure;
pub mod laws;
pub mod record;
pub mod strutil;
