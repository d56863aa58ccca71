//! Dependency-aware pipeline trigger resolution for a service registry.
//!
//! The crate models an organization's packages, services and schemas as one
//! dependency graph, computes the minimal set of downstream pipelines to
//! re-trigger when an entity changes, and carries the surrounding pure logic:
//! the release version model, the bounded spec-fetch retry policy, and the
//! idempotent create-or-update reconciliation of database schemas.

pub mod catalog;
pub mod config;
pub mod graph;
pub mod keys;
pub mod reconcile;
pub mod references;
pub mod requirements;
pub mod resolver;
pub mod retry;
pub mod text;
pub mod version;
