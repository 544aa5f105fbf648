//! Synchronizes a local directory tree with a remote catalog of integration
//! packages.
//!
//! The crate holds the verified core of the tool: the rule engine that folds
//! an ordered list of include/exclude filter rules over a catalog snapshot
//! into a working set of package ids, the planning half of the artifact
//! materializer (safe archive-entry paths, comment stripping, exact output
//! bytes), the bounded worker window that limits how many tasks are in
//! flight, and the pure decisions of the download pipeline. Network and
//! filesystem effects are carried out by a thin unverified shell that feeds
//! plain values into these functions and applies the plans they return.

pub mod archive;
pub mod auth;
pub mod catalog;
pub mod client;
pub mod config;
pub mod errors;
pub mod json;
pub mod materialize;
pub mod paths;
pub mod pool;
pub mod rules;
pub mod strip;
