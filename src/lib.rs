//! Release versioning for a multi-package project: reading version tags,
//! choosing the version text from version-control answers, rewriting the
//! package manifest, and laying out native version resources.
pub mod agent;
pub mod manifest;
pub mod manifest_laws;
pub mod resolver;
pub mod resource;
pub mod version;

pub use agent::AgentInstance;
pub use version::Version;
