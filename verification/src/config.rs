//! Reading the configuration document: the `toml` crate parses the text
//! and hands out fields, each call behind a trusted wrapper whose result
//! is named, and everything else — which fields must be present, which
//! database kinds are known — is decided and proved here.

use crate::errors::MigError;
use crate::flags::{Config, ConfigView, DatabaseType};
use crate::text::{eq_ignore_case, ieq};
use vstd::prelude::*;

verus! {

/// toml's parsed value; opaque to the engine, read only through `as_str`.
#[verifier::external_type_specification]
#[verifier::external_body]
pub struct ExTomlValue(toml::Value);

/// toml's table of keys to values; opaque to the engine, read only
/// through `get`.
#[verifier::external_type_specification]
#[verifier::external_body]
#[verifier::reject_recursive_types(K)]
#[verifier::reject_recursive_types(V)]
pub struct ExTomlMap<K, V>(toml::map::Map<K, V>);

/// toml's parse error; opaque to the engine, mapped to `ConfigSyntax`.
#[verifier::external_type_specification]
#[verifier::external_body]
pub struct ExTomlDeError(toml::de::Error);

/// What parsing a document yields: its top-level table, or nothing for
/// text that is not well-formed TOML.  Parsing depends on the text alone.
pub uninterp spec fn spec_doc_table(s: Seq<char>) -> Option<toml::Table>;

/// What a parsed table holds: its keys and their values.
pub uninterp spec fn spec_table_map(t: toml::Table) -> Map<Seq<char>, toml::Value>;

/// The string payload of a value, and nothing for a value of any other
/// kind.
pub uninterp spec fn spec_value_str(v: toml::Value) -> Option<Seq<char>>;

/// Relies on toml::from_str: parses a TOML document into its top-level
/// table — the table `spec_doc_table` names — or fails exactly on a
/// document that is not well-formed TOML.
#[verifier::external_body]
fn parse_toml_table(content: &str) -> (r: Result<toml::Table, toml::de::Error>)
    ensures
        match r {
            Ok(t) => spec_doc_table(content@) == Some(t),
            Err(_) => spec_doc_table(content@) is None,
        },
{
    toml::from_str::<toml::Table>(content)
}

/// Relies on toml::map::Map::get: the value under `key`, exactly when the
/// table holds one.
#[verifier::external_body]
fn table_get<'a>(table: &'a toml::Table, key: &str) -> (r: Option<&'a toml::Value>)
    ensures
        match r {
            Some(v) => spec_table_map(*table).dom().contains(key@) && *v == spec_table_map(
                *table,
            )[key@],
            None => !spec_table_map(*table).dom().contains(key@),
        },
{
    table.get(key)
}

/// Relies on toml::Value::as_str: the payload of a string value, and
/// nothing for a value of any other kind.
#[verifier::external_body]
fn value_as_string(v: &toml::Value) -> (r: Option<String>)
    ensures
        match r {
            Some(s) => spec_value_str(*v) == Some(s@),
            None => spec_value_str(*v) is None,
        },
{
    v.as_str().map(str::to_owned)
}

/// The database kind a configuration word names, compared without regard
/// to ASCII case; any other word is unknown.
pub open spec fn spec_database_type_of(s: Seq<char>) -> Result<DatabaseType, MigError> {
    if ieq(s, "postgres"@) {
        Ok(DatabaseType::Postgres)
    } else if ieq(s, "mysql"@) {
        Ok(DatabaseType::MySql)
    } else {
        Err(MigError::UnknownDatabaseKind)
    }
}

/// The database kind a configuration word names.
pub fn database_type_of(s: &String) -> (r: Result<DatabaseType, MigError>)
    ensures
        r == spec_database_type_of(s@),
{
    if eq_ignore_case(s.as_str(), "postgres") {
        Ok(DatabaseType::Postgres)
    } else if eq_ignore_case(s.as_str(), "mysql") {
        Ok(DatabaseType::MySql)
    } else {
        Err(MigError::UnknownDatabaseKind)
    }
}

/// The configuration assembled from the document's two optional fields:
/// the kind must be present and known, the connection string present; the
/// kind is judged first, as the document's reader reports it.
pub open spec fn spec_config_from_fields(db: Option<Seq<char>>, url: Option<Seq<char>>) -> Result<
    ConfigView,
    MigError,
> {
    match db {
        Option::None => Err(MigError::MissingDatabaseKind),
        Option::Some(d) => match spec_database_type_of(d) {
            Result::Err(e) => Err(e),
            Result::Ok(kind) => match url {
                Option::None => Err(MigError::MissingDatabaseUrl),
                Option::Some(u) => Ok(ConfigView { database: kind, database_url: u }),
            },
        },
    }
}

/// Builds the configuration from the two fields a document may carry.
pub fn config_from_fields(db: Option<String>, url: Option<String>) -> (r: Result<
    Config,
    MigError,
>)
    ensures
        match (r, spec_config_from_fields(db.deep_view(), url.deep_view())) {
            (Ok(c), Ok(cv)) => c@ == cv,
            (Err(e), Err(se)) => e == se,
            _ => false,
        },
{
    let d = match db {
        Option::None => {
            return Err(MigError::MissingDatabaseKind);
        },
        Option::Some(d) => d,
    };
    let kind = match database_type_of(&d) {
        Result::Err(e) => {
            return Err(e);
        },
        Result::Ok(kind) => kind,
    };
    let u = match url {
        Option::None => {
            return Err(MigError::MissingDatabaseUrl);
        },
        Option::Some(u) => u,
    };
    Ok(Config::new(kind, u))
}

/// The string payload of the field under `key` in a parsed table, and
/// nothing when the key is absent or its value is not a string.
pub open spec fn spec_doc_field(t: toml::Table, key: Seq<char>) -> Option<Seq<char>> {
    if spec_table_map(t).dom().contains(key) {
        spec_value_str(spec_table_map(t)[key])
    } else {
        None
    }
}

/// The string payload of the field under `key`.
fn doc_field(table: &toml::Table, key: &str) -> (r: Option<String>)
    ensures
        r.deep_view() == spec_doc_field(*table, key@),
{
    match table_get(table, key) {
        Option::Some(v) => value_as_string(v),
        Option::None => Option::None,
    }
}

/// Reads a configuration document.  Text that is not well-formed TOML is
/// exactly the `ConfigSyntax` error; a document that parses yields
/// exactly what `config_from_fields` makes of its `database` and
/// `database_url` fields: their payloads reach the `Config` unchanged,
/// and each missing or unrecognized field gives its own error.
pub fn parse_config(content: &str) -> (r: Result<Config, MigError>)
    ensures
        match spec_doc_table(content@) {
            Option::None => r == Err::<Config, MigError>(MigError::ConfigSyntax),
            Option::Some(t) => match (r, spec_config_from_fields(
                spec_doc_field(t, "database"@),
                spec_doc_field(t, "database_url"@),
            )) {
                (Ok(c), Ok(cv)) => c@ == cv,
                (Err(e), Err(se)) => e == se,
                _ => false,
            },
        },
{
    let table = match parse_toml_table(content) {
        Result::Ok(t) => t,
        Result::Err(_) => {
            return Err(MigError::ConfigSyntax);
        },
    };
    let db = doc_field(&table, "database");
    let url = doc_field(&table, "database_url");
    config_from_fields(db, url)
}

} // verus!
