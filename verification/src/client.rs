//! The pure half of the catalog/artifact client: request URLs, the closed
//! set of artifact collections, and the decisions taken on response
//! statuses. The unverified shell performs the HTTP calls and feeds the
//! status and body back into these functions.

use vstd::prelude::*;

use crate::errors::Error;
use crate::rules::CatalogEntry;

verus! {

/// The closed set of remote artifact collections a package owns.
#[derive(Clone, Copy, Debug, PartialEq, Eq, Structural)]
pub enum ArtifactType {
    IntegrationDesigntime,
    ValueMappingDesigntime,
}

/// The URL path segment of an artifact collection.
pub open spec fn artifact_type_segment(t: ArtifactType) -> Seq<char> {
    match t {
        ArtifactType::IntegrationDesigntime => "IntegrationDesigntimeArtifacts"@,
        ArtifactType::ValueMappingDesigntime => "ValueMappingDesigntimeArtifacts"@,
    }
}

impl ArtifactType {
    /// The collection's URL path segment.
    pub fn path_segment(&self) -> (r: &'static str)
        ensures
            r@ == artifact_type_segment(*self),
    {
        match self {
            ArtifactType::IntegrationDesigntime => "IntegrationDesigntimeArtifacts",
            ArtifactType::ValueMappingDesigntime => "ValueMappingDesigntimeArtifacts",
        }
    }
}

/// The collections listed for each package, in listing order.
pub fn artifact_types() -> (r: Vec<ArtifactType>)
    ensures
        r@ == seq![ArtifactType::IntegrationDesigntime, ArtifactType::ValueMappingDesigntime],
{
    let mut v: Vec<ArtifactType> = Vec::new();
    v.push(ArtifactType::IntegrationDesigntime);
    v.push(ArtifactType::ValueMappingDesigntime);
    proof {
        assert(v@ =~= seq![
            ArtifactType::IntegrationDesigntime,
            ArtifactType::ValueMappingDesigntime,
        ]);
    }
    v
}

/// The API root of a management host.
pub open spec fn api_base(host: Seq<char>) -> Seq<char> {
    "https://"@ + host + "/api/v1/"@
}

/// The URL of the connectivity check: the API root itself.
pub fn check_api_url(host: &str) -> (r: String)
    ensures
        r@ == api_base(host@),
{
    let mut u = String::new();
    u.append("https://");
    u.append(host);
    u.append("/api/v1/");
    proof {
        assert(u@ =~= api_base(host@));
    }
    u
}

/// The URL listing every package of the catalog.
pub open spec fn package_list_url_spec(host: Seq<char>) -> Seq<char> {
    api_base(host) + "IntegrationPackages"@
}

pub fn package_list_url(host: &str) -> (r: String)
    ensures
        r@ == package_list_url_spec(host@),
{
    let mut u = check_api_url(host);
    u.append("IntegrationPackages");
    u
}

/// The URL listing one package's artifacts of one collection.
pub open spec fn artifact_list_url_spec(
    host: Seq<char>,
    package_id: Seq<char>,
    t: ArtifactType,
) -> Seq<char> {
    api_base(host) + "IntegrationPackages('"@ + package_id + "')/"@ + artifact_type_segment(t)
}

pub fn artifact_list_url(host: &str, package_id: &str, t: ArtifactType) -> (r: String)
    ensures
        r@ == artifact_list_url_spec(host@, package_id@, t),
{
    let mut u = check_api_url(host);
    u.append("IntegrationPackages('");
    u.append(package_id);
    u.append("')/");
    u.append(t.path_segment());
    proof {
        assert(u@ =~= artifact_list_url_spec(host@, package_id@, t));
    }
    u
}

/// The URL of one artifact's payload, at its active version.
pub open spec fn artifact_payload_url_spec(
    host: Seq<char>,
    t: ArtifactType,
    artifact_id: Seq<char>,
) -> Seq<char> {
    api_base(host) + artifact_type_segment(t) + "(Id='"@ + artifact_id + "',Version='Active')/$value"@
}

pub fn artifact_payload_url(host: &str, t: ArtifactType, artifact_id: &str) -> (r: String)
    ensures
        r@ == artifact_payload_url_spec(host@, t, artifact_id@),
{
    let mut u = check_api_url(host);
    u.append(t.path_segment());
    u.append("(Id='");
    u.append(artifact_id);
    u.append("',Version='Active')/$value");
    proof {
        assert(u@ =~= artifact_payload_url_spec(host@, t, artifact_id@));
    }
    u
}

/// A successful HTTP status, as status codes define success: the 2xx range.
pub open spec fn status_success(code: u16) -> bool {
    200 <= code < 300
}

pub fn status_is_success(code: u16) -> (r: bool)
    ensures
        r == status_success(code),
{
    200 <= code && code < 300
}

/// What the pipeline does with one artifact-download response.
#[derive(Clone, Copy, Debug, PartialEq, Eq, Structural)]
pub enum DownloadAction {
    /// The payload is handed to the materializer.
    Materialize,
    /// The failure is logged and the artifact skipped.
    Skip,
}

/// Decides one artifact download from its HTTP status: a success is
/// materialized; a failure is skipped when download errors are ignored,
/// and otherwise fails the run with the URL, status and body.
pub fn download_response_action(
    url: &str,
    status: u16,
    body: &str,
    ignore_error_download: bool,
) -> (r: Result<DownloadAction, Error>)
    ensures
        status_success(status) ==> r == Ok::<DownloadAction, Error>(DownloadAction::Materialize),
        !status_success(status) && ignore_error_download ==> r == Ok::<DownloadAction, Error>(
            DownloadAction::Skip,
        ),
        !status_success(status) && !ignore_error_download ==> (r matches Err(e) && e matches
            Error::ArtifactDownload { url: u, status: s, body: b } && u@ == url@ && s == status
            && b@ == body@),
{
    if status_is_success(status) {
        Ok(DownloadAction::Materialize)
    } else if ignore_error_download {
        Ok(DownloadAction::Skip)
    } else {
        Err(Error::ArtifactDownload { url: url.to_owned(), status, body: body.to_owned() })
    }
}

/// One artifact download queued by the package tier.
#[derive(Clone, Debug)]
pub struct DownloadTask {
    pub package_id: String,
    pub artifact_id: String,
    pub artifact_type: ArtifactType,
}

/// The download tasks one artifact listing yields: one per listed
/// artifact, in listing order.
pub fn download_tasks(
    package_id: &str,
    t: ArtifactType,
    artifacts: &Vec<CatalogEntry>,
) -> (r: Vec<DownloadTask>)
    ensures
        r@.len() == artifacts@.len(),
        forall|i: int|
            0 <= i < r@.len() ==> (#[trigger] r@[i]).package_id@ == package_id@
                && r@[i].artifact_type == t && r@[i].artifact_id@ == artifacts@[i].id@,
{
    let mut out: Vec<DownloadTask> = Vec::new();
    let mut i: usize = 0;
    while i < artifacts.len()
        invariant
            i <= artifacts@.len(),
            out@.len() == i,
            forall|j: int|
                0 <= j < i ==> (#[trigger] out@[j]).package_id@ == package_id@
                    && out@[j].artifact_type == t && out@[j].artifact_id@ == artifacts@[j].id@,
        decreases artifacts@.len() - i,
    {
        out.push(
            DownloadTask {
                package_id: package_id.to_owned(),
                artifact_id: artifacts[i].id.clone(),
                artifact_type: t,
            },
        );
        i += 1;
    }
    out
}

} // verus!
