//! Typed representation of the configuration document: tenant connection
//! info, credential variant, and package selection / materialization options.

use vstd::prelude::*;

verus! {

/// Whether a filter rule adds packages to the working set or removes them.
#[derive(Clone, Copy, Debug, PartialEq, Eq, Structural)]
pub enum OperationEnum {
    Include,
    Exclude,
}

/// A filter rule that names one package by its exact id.
#[derive(Clone, Debug)]
pub struct PackageSingle {
    pub id: String,
    pub operation: OperationEnum,
}

/// A filter rule that selects every package whose id matches a pattern.
#[derive(Clone, Debug)]
pub struct PackageRegex {
    pub operation: OperationEnum,
    pub pattern: String,
}

/// One element of the ordered filter-rule list.
#[derive(Clone, Debug)]
pub enum PackageRuleEnum {
    Regex(PackageRegex),
    Single(PackageSingle),
}

/// Whether a downloaded artifact archive is extracted or kept as one file.
#[derive(Clone, Copy, Debug, PartialEq, Eq, Structural)]
pub enum ZipExtraction {
    Disabled,
    Enabled,
}

/// Whether comment lines are dropped from extracted parameter files.
#[derive(Clone, Copy, Debug, PartialEq, Eq, Structural)]
pub enum PropCommentRemoval {
    Disabled,
    Enabled,
}

/// Package selection and materialization options.
#[derive(Clone, Debug)]
pub struct Packages {
    pub zip_extraction: ZipExtraction,
    pub prop_comment_removal: PropCommentRemoval,
    pub local_dir: String,
    pub filter_rules: Vec<PackageRuleEnum>,
    pub download_worker_count: usize,
}

/// Credential for basic authentication with a named user.
#[derive(Clone, Debug)]
pub struct CredentialSUser {
    pub username: String,
    pub password_environment_variable: Option<String>,
}

/// Credential for the OAuth client-credentials flow.
#[derive(Clone, Debug)]
pub struct CredentialOauthClientCredentials {
    pub client_id: String,
    pub token_endpoint_url: String,
    pub client_secret_environment_variable: Option<String>,
}

/// The closed set of credential variants.
#[derive(Clone, Debug)]
pub enum CredentialInside {
    OauthClientCredentials(CredentialOauthClientCredentials),
    SUser(CredentialSUser),
}

/// Remote tenant: management host plus the credential used against it.
#[derive(Clone, Debug)]
pub struct Tenant {
    pub management_host: String,
    pub credential: CredentialInside,
}

/// The whole configuration document.
#[derive(Clone, Debug)]
pub struct Config {
    pub cpisync: String,
    pub tenant: Tenant,
    pub packages: Packages,
}

/// Default operation for a filter rule that does not name one.
pub fn default_package_rule_operation() -> (r: OperationEnum)
    ensures
        r == OperationEnum::Include,
{
    OperationEnum::Include
}

/// Default archive-extraction setting.
pub fn default_extract_zip() -> (r: ZipExtraction)
    ensures
        r == ZipExtraction::Enabled,
{
    ZipExtraction::Enabled
}

/// Default comment-removal setting.
pub fn default_prop_comment_removal() -> (r: PropCommentRemoval)
    ensures
        r == PropCommentRemoval::Disabled,
{
    PropCommentRemoval::Disabled
}

/// Default local output directory: the configuration file's own directory.
pub fn default_packages_local_dir() -> (r: String)
    ensures
        r@ =~= Seq::<char>::empty(),
{
    String::new()
}

/// The name under which the credential authenticates: the client id for the
/// OAuth variant, the username for the basic variant.
pub fn credential_username(credential: &CredentialInside) -> (r: &String)
    ensures
        match credential {
            CredentialInside::OauthClientCredentials(c) => r@ == c.client_id@,
            CredentialInside::SUser(c) => r@ == c.username@,
        },
{
    match credential {
        CredentialInside::OauthClientCredentials(c) => &c.client_id,
        CredentialInside::SUser(c) => &c.username,
    }
}

} // verus!
