//! Deterministic, offline verification of declarative skill manifests.
//!
//! A manifest passes through five layers in a fixed order: structural
//! schema checks, execution-graph integrity, security policy and
//! injection scanning, and signature verification.

pub mod crypto;
pub mod dag;
pub mod executor;
pub mod graph;
pub mod json;
pub mod schema;
pub mod security;
pub mod text;
pub mod validator;

pub use executor::JadeExecutor;
pub use validator::JadeValidator;
