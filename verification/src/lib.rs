//! A hierarchical, orthogonal state-machine (statechart) engine.
//!
//! A machine is described by plain declaration records ([`decl`]): states,
//! events, transitions, orthogonal regions (one per declared initial state)
//! and nested sub-machines.  The validator ([`validate`]) partitions the
//! states into regions, resolves every reference and canonicalizes the
//! transitions per event, producing an immutable validated descriptor.  The
//! runtime ([`runtime`]) holds one current state per region and dispatches
//! events against the descriptor, delegating to nested sub-machine instances
//! and draining events enqueued by actions after each top-level dispatch.

pub mod decl;
pub mod runtime;
pub mod sig;
pub mod validate;
