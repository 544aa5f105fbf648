use cpi_sync::config::{OperationEnum, PackageRegex, PackageRuleEnum, PackageSingle};
use cpi_sync::errors::Error;
use cpi_sync::rules::{select, CatalogEntry};

fn entry(id: &str, name: &str) -> CatalogEntry {
    CatalogEntry { id: id.to_string(), name: name.to_string(), mode: None }
}

fn regex_rule(op: OperationEnum, pattern: &str) -> PackageRuleEnum {
    PackageRuleEnum::Regex(PackageRegex { operation: op, pattern: pattern.to_string() })
}

fn single_rule(op: OperationEnum, id: &str) -> PackageRuleEnum {
    PackageRuleEnum::Single(PackageSingle { id: id.to_string(), operation: op })
}

#[test]
fn select_all_then_exclude_single() {
    let catalog = vec![entry("A", "Alpha"), entry("B", "Beta")];
    let rules = vec![
        regex_rule(OperationEnum::Include, ".*"),
        single_rule(OperationEnum::Exclude, "B"),
    ];
    let ids = select(&catalog, &rules).unwrap();
    assert_eq!(ids, vec!["A".to_string()]);
}

#[test]
fn select_same_pattern_include_then_exclude_is_empty() {
    let catalog = vec![entry("X1", "One"), entry("X2", "Two"), entry("Y", "Three")];
    let rules = vec![
        regex_rule(OperationEnum::Include, "^X"),
        regex_rule(OperationEnum::Exclude, "^X"),
    ];
    let ids = select(&catalog, &rules).unwrap();
    assert!(ids.is_empty());
}

#[test]
fn select_unknown_id_reports_name_hint() {
    let catalog = vec![entry("pkg_alpha", "Alpha"), entry("pkg_beta", "Beta")];
    let rules = vec![single_rule(OperationEnum::Include, "Alpha")];
    match select(&catalog, &rules) {
        Err(Error::UnknownPackage { id, name_hint }) => {
            assert_eq!(id, "Alpha");
            assert_eq!(name_hint, Some("pkg_alpha".to_string()));
        }
        other => panic!("expected an unknown-package error, got {:?}", other),
    }
}

#[test]
fn select_unknown_id_without_hint() {
    let catalog = vec![entry("pkg_alpha", "Alpha")];
    let rules = vec![single_rule(OperationEnum::Exclude, "missing")];
    match select(&catalog, &rules) {
        Err(Error::UnknownPackage { id, name_hint }) => {
            assert_eq!(id, "missing");
            assert_eq!(name_hint, None);
        }
        other => panic!("expected an unknown-package error, got {:?}", other),
    }
}

#[test]
fn select_unknown_id_joins_all_hint_ids() {
    let catalog = vec![entry("id_one", "Shared"), entry("id_two", "Shared")];
    let rules = vec![single_rule(OperationEnum::Include, "Shared")];
    match select(&catalog, &rules) {
        Err(Error::UnknownPackage { name_hint, .. }) => {
            assert_eq!(name_hint, Some("id_one,id_two".to_string()));
        }
        other => panic!("expected an unknown-package error, got {:?}", other),
    }
}

#[test]
fn select_empty_rule_list_selects_nothing() {
    let catalog = vec![entry("A", "Alpha"), entry("B", "Beta")];
    let ids = select(&catalog, &vec![]).unwrap();
    assert!(ids.is_empty());
}

#[test]
fn select_invalid_pattern_fails() {
    let catalog = vec![entry("A", "Alpha")];
    let rules = vec![regex_rule(OperationEnum::Include, "[")];
    match select(&catalog, &rules) {
        Err(Error::Pattern(p)) => assert_eq!(p, "["),
        other => panic!("expected a pattern error, got {:?}", other),
    }
}

#[test]
fn select_later_include_overrides_earlier_exclude() {
    let catalog = vec![entry("A", "Alpha"), entry("B", "Beta")];
    let rules = vec![
        regex_rule(OperationEnum::Include, ".*"),
        single_rule(OperationEnum::Exclude, "B"),
        single_rule(OperationEnum::Include, "B"),
    ];
    let ids = select(&catalog, &rules).unwrap();
    assert_eq!(ids, vec!["A".to_string(), "B".to_string()]);
}

#[test]
fn select_exclude_of_unselected_id_is_no_op() {
    let catalog = vec![entry("A", "Alpha"), entry("B", "Beta")];
    let rules = vec![
        single_rule(OperationEnum::Exclude, "B"),
        single_rule(OperationEnum::Include, "A"),
    ];
    let ids = select(&catalog, &rules).unwrap();
    assert_eq!(ids, vec!["A".to_string()]);
}

#[test]
fn select_regex_matches_substring() {
    let catalog = vec![entry("alpha_sync", "One"), entry("beta", "Two")];
    let rules = vec![regex_rule(OperationEnum::Include, "sync")];
    let ids = select(&catalog, &rules).unwrap();
    assert_eq!(ids, vec!["alpha_sync".to_string()]);
}

#[test]
fn select_keeps_catalog_order() {
    let catalog = vec![entry("b", "B"), entry("a", "A"), entry("c", "C")];
    let rules = vec![regex_rule(OperationEnum::Include, ".*")];
    let ids = select(&catalog, &rules).unwrap();
    assert_eq!(
        ids,
        vec!["b".to_string(), "a".to_string(), "c".to_string()]
    );
}
