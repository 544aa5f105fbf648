use cpi_sync::auth::{basic_auth, resolve_secret};
use cpi_sync::config::{
    credential_username, default_extract_zip, default_package_rule_operation,
    default_packages_local_dir, default_prop_comment_removal, CredentialInside,
    CredentialOauthClientCredentials, CredentialSUser, OperationEnum, PropCommentRemoval,
    ZipExtraction,
};
use cpi_sync::errors::Error;

#[test]
fn basic_auth_encodes_user_and_password() {
    assert_eq!(basic_auth("user", "pass"), "Basic dXNlcjpwYXNz");
}

#[test]
fn basic_auth_pads_short_input() {
    assert_eq!(basic_auth("user", ""), "Basic dXNlcjo=");
}

#[test]
fn secret_from_environment_wins() {
    let r = resolve_secret(Some("env".to_string()), Some("typed".to_string()));
    assert_eq!(r.unwrap(), "env");
}

#[test]
fn secret_falls_back_to_the_prompt() {
    let r = resolve_secret(None, Some("typed".to_string()));
    assert_eq!(r.unwrap(), "typed");
}

#[test]
fn missing_secret_is_a_credential_error() {
    match resolve_secret(None, None) {
        Err(Error::Credential(_)) => {}
        other => panic!("expected a credential error, got {:?}", other),
    }
}

#[test]
fn username_comes_from_the_credential_variant() {
    let basic = CredentialInside::SUser(CredentialSUser {
        username: "alice".to_string(),
        password_environment_variable: None,
    });
    assert_eq!(credential_username(&basic).as_str(), "alice");
    let oauth = CredentialInside::OauthClientCredentials(CredentialOauthClientCredentials {
        client_id: "client".to_string(),
        token_endpoint_url: "https://token".to_string(),
        client_secret_environment_variable: None,
    });
    assert_eq!(credential_username(&oauth).as_str(), "client");
}

#[test]
fn defaults_match_the_documented_configuration() {
    assert_eq!(default_package_rule_operation(), OperationEnum::Include);
    assert_eq!(default_extract_zip(), ZipExtraction::Enabled);
    assert_eq!(default_prop_comment_removal(), PropCommentRemoval::Disabled);
    assert_eq!(default_packages_local_dir(), "");
}
