//! Error taxonomy of the sync run. Every variant carries plain values only,
//! so contracts can state exactly which error an input produces; the
//! unverified shell maps transport-level failures of the outside crates into
//! these variants at the boundary.

use vstd::prelude::*;

verus! {

/// One fatal (or, for ignored artifact downloads, downgraded) failure of a
/// sync run.
#[derive(Clone, Debug)]
pub enum Error {
    /// Network failure before any HTTP status was received.
    Transport(String),
    /// Non-success HTTP status from the remote API, with the request URL and
    /// the response body for diagnostics.
    RemoteApi { url: String, status: u16, body: String },
    /// Malformed catalog or artifact-listing response.
    Decode(String),
    /// Invalid regular expression in a filter rule.
    Pattern(String),
    /// A single-package rule named an id that the catalog does not contain;
    /// if catalog entries carry that string as their display name, their ids
    /// are joined into the hint.
    UnknownPackage { id: String, name_hint: Option<String> },
    /// No secret could be resolved from the environment or a prompt.
    Credential(String),
    /// Filesystem failure while creating or writing local paths.
    Filesystem(String),
    /// Malformed archive or unsafe archive-entry path.
    Archive(String),
    /// Non-ignored artifact download failure, with the request URL, status
    /// and response body.
    ArtifactDownload { url: String, status: u16, body: String },
}

} // verus!
