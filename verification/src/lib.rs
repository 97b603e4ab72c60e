//! Verified core of a package manager for Minecraft game instances.
//!
//! The crate holds what the manager decides and computes: the
//! content-addressed artifact store, the bridge from semver requirements to
//! the range sets of the dependency solver, the selection of the libraries
//! of a vanilla version for a platform, and the plan that deploys a resolved
//! install. Reading files, talking to servers and parsing documents is left
//! to the front end, which hands over plain values.

pub mod checksum;
pub mod http;
pub mod id;
pub mod inst;
pub mod java;
pub mod launch;
pub mod lock;
pub mod mc;
pub mod pack;
pub mod path;
pub mod ranges;
pub mod registry;
pub mod search;
pub mod storage;
pub mod storage_model;
pub mod text;
pub mod user;
pub mod vanilla;
