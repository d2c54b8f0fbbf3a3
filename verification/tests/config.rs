use migratour::config::{config_from_fields, database_type_of, parse_config};
use migratour::errors::MigError;
use migratour::flags::DatabaseType;

#[test]
fn a_full_document_yields_a_config() {
    let c = parse_config("database = \"postgres\"\ndatabase_url = \"postgres://h/db\"\n").unwrap();
    assert!(matches!(c.database, DatabaseType::Postgres));
    assert_eq!(c.database_url, "postgres://h/db");
}

#[test]
fn the_kind_is_read_case_insensitively() {
    let c = parse_config("database = \"MySQL\"\ndatabase_url = \"mysql://h/db\"\n").unwrap();
    assert!(matches!(c.database, DatabaseType::MySql));
}

#[test]
fn a_document_without_a_kind_fails() {
    let r = parse_config("database_url = \"postgres://h/db\"\n");
    assert_eq!(r.unwrap_err(), MigError::MissingDatabaseKind);
}

#[test]
fn a_document_without_a_url_fails() {
    let r = parse_config("database = \"postgres\"\n");
    assert_eq!(r.unwrap_err(), MigError::MissingDatabaseUrl);
}

#[test]
fn an_unknown_kind_fails() {
    let r = parse_config("database = \"oracle\"\ndatabase_url = \"oracle://h/db\"\n");
    assert_eq!(r.unwrap_err(), MigError::UnknownDatabaseKind);
}

#[test]
fn a_malformed_document_fails() {
    let r = parse_config("database = [unclosed\n");
    assert_eq!(r.unwrap_err(), MigError::ConfigSyntax);
}

#[test]
fn database_type_of_knows_both_backends() {
    assert_eq!(
        database_type_of(&"postgres".to_string()),
        Ok(DatabaseType::Postgres)
    );
    assert_eq!(
        database_type_of(&"MYSQL".to_string()),
        Ok(DatabaseType::MySql)
    );
    assert_eq!(
        database_type_of(&"sqlite".to_string()),
        Err(MigError::UnknownDatabaseKind)
    );
}

#[test]
fn fields_are_judged_kind_first() {
    let r = config_from_fields(None, None);
    assert_eq!(r.unwrap_err(), MigError::MissingDatabaseKind);
    let r = config_from_fields(Some("nosuch".to_string()), Some("u".to_string()));
    assert_eq!(r.unwrap_err(), MigError::UnknownDatabaseKind);
    let c = config_from_fields(Some("mysql".to_string()), Some("mysql://h".to_string())).unwrap();
    assert!(matches!(c.database, DatabaseType::MySql));
    assert_eq!(c.database_url, "mysql://h");
}

#[test]
fn a_non_string_kind_counts_as_missing() {
    let r = parse_config("database = 7\ndatabase_url = \"postgres://h/db\"\n");
    assert_eq!(r.unwrap_err(), MigError::MissingDatabaseKind);
}

#[test]
fn a_non_string_url_counts_as_missing() {
    let r = parse_config("database = \"postgres\"\ndatabase_url = true\n");
    assert_eq!(r.unwrap_err(), MigError::MissingDatabaseUrl);
}
