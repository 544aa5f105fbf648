use cpi_sync::client::{
    artifact_list_url, artifact_payload_url, artifact_types, check_api_url, download_response_action,
    download_tasks, package_list_url, status_is_success, ArtifactType, DownloadAction,
};
use cpi_sync::errors::Error;
use cpi_sync::rules::CatalogEntry;

#[test]
fn check_url_is_the_api_root() {
    assert_eq!(check_api_url("example.com"), "https://example.com/api/v1/");
}

#[test]
fn package_list_url_names_the_collection() {
    assert_eq!(
        package_list_url("example.com"),
        "https://example.com/api/v1/IntegrationPackages"
    );
}

#[test]
fn artifact_list_url_names_package_and_collection() {
    assert_eq!(
        artifact_list_url("example.com", "PkgOne", ArtifactType::IntegrationDesigntime),
        "https://example.com/api/v1/IntegrationPackages('PkgOne')/IntegrationDesigntimeArtifacts"
    );
    assert_eq!(
        artifact_list_url("example.com", "PkgOne", ArtifactType::ValueMappingDesigntime),
        "https://example.com/api/v1/IntegrationPackages('PkgOne')/ValueMappingDesigntimeArtifacts"
    );
}

#[test]
fn artifact_payload_url_asks_for_the_active_version() {
    assert_eq!(
        artifact_payload_url("example.com", ArtifactType::IntegrationDesigntime, "FlowA"),
        "https://example.com/api/v1/IntegrationDesigntimeArtifacts(Id='FlowA',Version='Active')/$value"
    );
}

#[test]
fn both_artifact_collections_are_listed_in_order() {
    let types = artifact_types();
    assert_eq!(
        types,
        vec![ArtifactType::IntegrationDesigntime, ArtifactType::ValueMappingDesigntime]
    );
}

#[test]
fn status_success_is_the_two_hundred_range() {
    assert!(status_is_success(200));
    assert!(status_is_success(201));
    assert!(status_is_success(299));
    assert!(!status_is_success(199));
    assert!(!status_is_success(300));
    assert!(!status_is_success(404));
}

#[test]
fn successful_download_is_materialized() {
    let r = download_response_action("https://u", 200, "", false);
    assert_eq!(r.unwrap(), DownloadAction::Materialize);
}

#[test]
fn failed_download_is_skipped_when_errors_are_ignored() {
    let r = download_response_action("https://u", 404, "missing", true);
    assert_eq!(r.unwrap(), DownloadAction::Skip);
}

#[test]
fn failed_download_fails_the_run_otherwise() {
    match download_response_action("https://u", 404, "missing", false) {
        Err(Error::ArtifactDownload { url, status, body }) => {
            assert_eq!(url, "https://u");
            assert_eq!(status, 404);
            assert_eq!(body, "missing");
        }
        other => panic!("expected a download error, got {:?}", other),
    }
}

#[test]
fn download_tasks_carry_package_type_and_artifact() {
    let artifacts = vec![
        CatalogEntry { id: "FlowA".to_string(), name: "Flow A".to_string(), mode: None },
        CatalogEntry { id: "FlowB".to_string(), name: "Flow B".to_string(), mode: None },
    ];
    let tasks = download_tasks("PkgOne", ArtifactType::IntegrationDesigntime, &artifacts);
    assert_eq!(tasks.len(), 2);
    assert_eq!(tasks[0].package_id, "PkgOne");
    assert_eq!(tasks[0].artifact_id, "FlowA");
    assert_eq!(tasks[0].artifact_type, ArtifactType::IntegrationDesigntime);
    assert_eq!(tasks[1].artifact_id, "FlowB");
}
