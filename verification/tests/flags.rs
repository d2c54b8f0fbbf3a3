use migratour::errors::MigError;
use migratour::flags::{Command, DatabaseType, Flags};

fn args(words: &[&str]) -> Vec<String> {
    words.iter().map(|s| s.to_string()).collect()
}

#[test]
fn bare_up_means_apply_all() {
    let f = Flags::parse(args(&["migratour", "up"])).unwrap();
    assert!(matches!(f.cmd, Command::Up(true, -1)));
}

#[test]
fn up_with_a_count() {
    let f = Flags::parse(args(&["migratour", "up", "3"])).unwrap();
    assert!(matches!(f.cmd, Command::Up(false, 3)));
}

#[test]
fn up_with_a_bad_count_fails() {
    let r = Flags::parse(args(&["migratour", "up", "three"]));
    assert_eq!(r.unwrap_err(), MigError::InvalidUpCount);
}

#[test]
fn down_needs_a_count() {
    let f = Flags::parse(args(&["migratour", "down", "2"])).unwrap();
    assert!(matches!(f.cmd, Command::Down(2)));
    let r = Flags::parse(args(&["migratour", "down"]));
    assert_eq!(r.unwrap_err(), MigError::InvalidDownCount);
    let r = Flags::parse(args(&["migratour", "down", "x"]));
    assert_eq!(r.unwrap_err(), MigError::InvalidDownCount);
}

#[test]
fn new_takes_the_migration_name() {
    let f = Flags::parse(args(&["migratour", "new", "add_col"])).unwrap();
    match f.cmd {
        Command::New(name) => assert_eq!(name, "add_col"),
        _ => panic!("expected a new command"),
    }
}

#[test]
fn new_without_a_name_fails() {
    let r = Flags::parse(args(&["migratour", "new"]));
    assert_eq!(r.unwrap_err(), MigError::MissingMigrationName);
}

#[test]
fn unknown_words_fail() {
    let r = Flags::parse(args(&["migratour", "sideways"]));
    assert_eq!(r.unwrap_err(), MigError::UnknownCommand);
}

#[test]
fn url_flag_overrides_the_connection_string() {
    let f = Flags::parse(args(&["migratour", "-u", "postgres://h/db", "up"])).unwrap();
    assert_eq!(f.config.database_url, "postgres://h/db");
    assert!(matches!(f.cmd, Command::Up(true, -1)));
    let f = Flags::parse(args(&["migratour", "--db-url", "mysql://h/db", "down", "1"])).unwrap();
    assert_eq!(f.config.database_url, "mysql://h/db");
    assert!(matches!(f.cmd, Command::Down(1)));
}

#[test]
fn db_flag_also_sets_the_connection_string() {
    let f = Flags::parse(args(&["migratour", "--db", "postgres://elsewhere", "up"])).unwrap();
    assert_eq!(f.config.database_url, "postgres://elsewhere");
}

#[test]
fn a_trailing_flag_without_a_value_is_ignored() {
    let f = Flags::parse(args(&["migratour", "-u"])).unwrap();
    assert_eq!(f.config.database_url, "");
    assert!(matches!(f.cmd, Command::New(_)));
}

#[test]
fn defaults_are_postgres_and_an_empty_command() {
    let f = Flags::default();
    assert!(matches!(f.config.database, DatabaseType::Postgres));
    assert_eq!(f.config.database_url, "");
    match f.cmd {
        Command::New(name) => assert_eq!(name, ""),
        _ => panic!("expected an empty new command"),
    }
}

#[test]
fn error_messages_name_the_failure() {
    assert_eq!(
        MigError::InvalidDownCount.message(),
        "please enter a valid numeric value for down command"
    );
    assert_eq!(MigError::UnknownCommand.message(), "invalid command");
}
