use vstd::prelude::*;

verus! {

/// Everything that can go wrong in the engine or in the thin shells around
/// it.  The first group mirrors the failures of the database-facing
/// operations, the second the validation of migration files and batch
/// selection, the third the command line and the configuration document.
#[derive(Clone, Copy, Debug, PartialEq, Eq, Structural)]
pub enum MigError {
    /// Establishing the connection pool failed.
    ConnectionError,
    /// The startup health-check round trip failed.
    ConnectivityError,
    /// The ledger table is absent where it was required.
    LedgerMissing,
    /// The ledger table was created twice.
    LedgerAlreadyExists,
    /// A query expected a row and found none (empty ledger).
    NotFound,
    /// A migration file name does not begin with four decimal digits.
    InvalidMigrationName,
    /// An `up` request asked for more migrations than are pending.
    InsufficientMigrations,
    /// A `down` request asked for more migrations than are applied.
    InsufficientAppliedMigrations,
    /// A statement of a migration body failed to execute.
    StatementExecutionError,
    /// Reading or writing a file or directory failed.
    FileIOError,
    /// `new` was invoked without a migration name.
    MissingMigrationName,
    /// `up` was invoked with a count that is not a number.
    InvalidUpCount,
    /// `down` was invoked without a count or with one that is not a number.
    InvalidDownCount,
    /// The first word of the command line is not a known command.
    UnknownCommand,
    /// The configuration document does not name a database kind.
    MissingDatabaseKind,
    /// The configuration document does not name a connection string.
    MissingDatabaseUrl,
    /// The configuration document names a database kind that is not offered.
    UnknownDatabaseKind,
    /// The configuration document is not well-formed.
    ConfigSyntax,
}

/// The diagnostic line that belongs to each error.
pub open spec fn spec_message(e: MigError) -> Seq<char> {
    match e {
        MigError::ConnectionError => "could not connect to the database"@,
        MigError::ConnectivityError => "the database did not answer the health check"@,
        MigError::LedgerMissing => "the migration ledger table does not exist"@,
        MigError::LedgerAlreadyExists => "the migration ledger table already exists"@,
        MigError::NotFound => "no migration has been applied"@,
        MigError::InvalidMigrationName => "invalid name for your migration files"@,
        MigError::InsufficientMigrations => "fewer migrations are pending than were requested"@,
        MigError::InsufficientAppliedMigrations => "fewer migrations are applied than were requested"@,
        MigError::StatementExecutionError => "a migration statement failed"@,
        MigError::FileIOError => "could not read or write a migration file"@,
        MigError::MissingMigrationName => "please mention the name of the migration file"@,
        MigError::InvalidUpCount => "please enter a valid numeric value for up command"@,
        MigError::InvalidDownCount => "please enter a valid numeric value for down command"@,
        MigError::UnknownCommand => "invalid command"@,
        MigError::MissingDatabaseKind => "bad database type name"@,
        MigError::MissingDatabaseUrl => "bad database url"@,
        MigError::UnknownDatabaseKind => "unknown database type name"@,
        MigError::ConfigSyntax => "the configuration file could not be parsed"@,
    }
}

impl MigError {
    /// The diagnostic line of this error, for callers that report failures.
    pub fn message(&self) -> (r: &'static str)
        ensures
            r@ == spec_message(*self),
    {
        match self {
            MigError::ConnectionError => "could not connect to the database",
            MigError::ConnectivityError => "the database did not answer the health check",
            MigError::LedgerMissing => "the migration ledger table does not exist",
            MigError::LedgerAlreadyExists => "the migration ledger table already exists",
            MigError::NotFound => "no migration has been applied",
            MigError::InvalidMigrationName => "invalid name for your migration files",
            MigError::InsufficientMigrations => "fewer migrations are pending than were requested",
            MigError::InsufficientAppliedMigrations => "fewer migrations are applied than were requested",
            MigError::StatementExecutionError => "a migration statement failed",
            MigError::FileIOError => "could not read or write a migration file",
            MigError::MissingMigrationName => "please mention the name of the migration file",
            MigError::InvalidUpCount => "please enter a valid numeric value for up command",
            MigError::InvalidDownCount => "please enter a valid numeric value for down command",
            MigError::UnknownCommand => "invalid command",
            MigError::MissingDatabaseKind => "bad database type name",
            MigError::MissingDatabaseUrl => "bad database url",
            MigError::UnknownDatabaseKind => "unknown database type name",
            MigError::ConfigSyntax => "the configuration file could not be parsed",
        }
    }
}

} // verus!
