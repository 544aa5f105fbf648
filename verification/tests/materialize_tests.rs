use std::io::Write;

use cpi_sync::config::{
    Config, CredentialInside, CredentialSUser, Packages, PropCommentRemoval, Tenant, ZipExtraction,
};
use cpi_sync::errors::Error;
use cpi_sync::materialize::{plan_entries, write_artifact_plan};

fn config(extraction: ZipExtraction, removal: PropCommentRemoval) -> Config {
    Config {
        cpisync: "0.3.1".to_string(),
        tenant: Tenant {
            management_host: "example.com".to_string(),
            credential: CredentialInside::SUser(CredentialSUser {
                username: "user".to_string(),
                password_environment_variable: None,
            }),
        },
        packages: Packages {
            zip_extraction: extraction,
            prop_comment_removal: removal,
            local_dir: String::new(),
            filter_rules: vec![],
            download_worker_count: 2,
        },
    }
}

fn build_zip(entries: &[(&str, &[u8])]) -> Vec<u8> {
    let mut w = zip::ZipWriter::new(std::io::Cursor::new(Vec::new()));
    let options = zip::write::SimpleFileOptions::default();
    for (name, content) in entries {
        w.start_file(*name, options).unwrap();
        w.write_all(content).unwrap();
    }
    w.finish().unwrap().into_inner()
}

#[test]
fn raw_plan_is_the_bytes_at_the_archive_path() {
    let cfg = config(ZipExtraction::Disabled, PropCommentRemoval::Disabled);
    let bytes = vec![1u8, 2, 3, 4];
    let plan = write_artifact_plan("pkg", "art", &cfg, bytes.clone()).unwrap();
    assert_eq!(plan.len(), 1);
    assert_eq!(plan[0].path, vec!["pkg".to_string(), "art.zip".to_string()]);
    assert_eq!(plan[0].contents, bytes);
}

#[test]
fn raw_plan_twice_is_byte_identical() {
    let cfg = config(ZipExtraction::Disabled, PropCommentRemoval::Enabled);
    let bytes = b"not even a zip".to_vec();
    let first = write_artifact_plan("pkg", "art", &cfg, bytes.clone()).unwrap();
    let second = write_artifact_plan("pkg", "art", &cfg, bytes).unwrap();
    assert_eq!(first.len(), second.len());
    assert_eq!(first[0].path, second[0].path);
    assert_eq!(first[0].contents, second[0].contents);
}

#[test]
fn extraction_plans_each_entry_under_the_artifact_dir() {
    let cfg = config(ZipExtraction::Enabled, PropCommentRemoval::Disabled);
    let bytes = build_zip(&[("dir/one.txt", b"hello"), ("two.txt", b"world")]);
    let plan = write_artifact_plan("pkg", "art", &cfg, bytes).unwrap();
    assert_eq!(plan.len(), 2);
    assert_eq!(
        plan[0].path,
        vec!["pkg".to_string(), "art".to_string(), "dir".to_string(), "one.txt".to_string()]
    );
    assert_eq!(plan[0].contents, b"hello".to_vec());
    assert_eq!(
        plan[1].path,
        vec!["pkg".to_string(), "art".to_string(), "two.txt".to_string()]
    );
    assert_eq!(plan[1].contents, b"world".to_vec());
}

#[test]
fn extraction_strips_comments_from_parameters_files_only() {
    let cfg = config(ZipExtraction::Enabled, PropCommentRemoval::Enabled);
    let bytes = build_zip(&[
        ("p/parameters.prop", b"#skip\nkeep=1\n#skip2\nkeep=2"),
        ("p/other.txt", b"#not stripped"),
    ]);
    let plan = write_artifact_plan("pkg", "art", &cfg, bytes).unwrap();
    assert_eq!(plan[0].contents, b"keep=1\nkeep=2\n".to_vec());
    assert_eq!(plan[1].contents, b"#not stripped".to_vec());
}

#[test]
fn extraction_without_removal_keeps_parameters_files_verbatim() {
    let cfg = config(ZipExtraction::Enabled, PropCommentRemoval::Disabled);
    let bytes = build_zip(&[("p/parameters.prop", b"#kept\nkeep=1")]);
    let plan = write_artifact_plan("pkg", "art", &cfg, bytes).unwrap();
    assert_eq!(plan[0].contents, b"#kept\nkeep=1".to_vec());
}

#[test]
fn extraction_rejects_escaping_entry_paths() {
    let cfg = config(ZipExtraction::Enabled, PropCommentRemoval::Disabled);
    let bytes = build_zip(&[("../../escape.txt", b"evil")]);
    match write_artifact_plan("pkg", "art", &cfg, bytes) {
        Err(Error::Archive(_)) => {}
        other => panic!("expected an archive error, got {:?}", other),
    }
}

#[test]
fn extraction_rejects_bytes_that_are_no_archive() {
    let cfg = config(ZipExtraction::Enabled, PropCommentRemoval::Disabled);
    match write_artifact_plan("pkg", "art", &cfg, b"not a zip".to_vec()) {
        Err(Error::Archive(_)) => {}
        other => panic!("expected an archive error, got {:?}", other),
    }
}

#[test]
fn plan_entries_rejects_undecodable_parameters_file() {
    let entries = vec![("p/parameters.prop".to_string(), vec![0xffu8, 0xfe])];
    match plan_entries("pkg", "art", entries, true) {
        Err(Error::Archive(_)) => {}
        other => panic!("expected an archive error, got {:?}", other),
    }
}

#[test]
fn plan_entries_accepts_undecodable_content_when_not_stripping() {
    let entries = vec![("p/data.bin".to_string(), vec![0xffu8, 0xfe])];
    let plan = plan_entries("pkg", "art", entries, true).unwrap();
    assert_eq!(plan[0].contents, vec![0xffu8, 0xfe]);
}

#[test]
fn plan_entries_sanitizes_entry_paths() {
    let entries = vec![("/abs/./x//y.txt".to_string(), b"v".to_vec())];
    let plan = plan_entries("pkg", "art", entries, false).unwrap();
    assert_eq!(
        plan[0].path,
        vec![
            "pkg".to_string(),
            "art".to_string(),
            "abs".to_string(),
            "x".to_string(),
            "y.txt".to_string()
        ]
    );
}
