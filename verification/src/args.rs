//! The arguments of the command line tool, as values.
use vstd::prelude::*;

verus! {

/// Create and apply migrations for a SurrealDB database.
#[derive(Debug, Clone, PartialEq, Eq)]
pub struct Args {
    pub command: Command,
    /// Path to the folder containing the configuration file.
    pub config_dir: Option<String>,
    /// Path to the folder that contains the migration files.
    pub migrations_folder: Option<String>,
    /// Address of the database server, such as `ws://localhost:8000`.
    pub db_address: Option<String>,
}

/// The subcommands.
#[derive(Debug, Clone, PartialEq, Eq)]
pub enum Command {
    /// Create a new migration file.
    Create(CreateArgs),
    /// Apply all new migrations to the database.
    Migrate(MigrateArgs),
    /// Revert migrations on the database, running down migrations.
    Revert(RevertArgs),
    /// List migrations defined and/or applied to the database.
    List(ListArgs),
    /// Verify applied migrations against the defined ones.
    Verify(VerifyArgs),
}

#[derive(Debug, Clone, PartialEq, Eq)]
pub struct CreateArgs {
    /// The key of the new migration in the format `YYYYMMDD_HHMMSS`; the
    /// current date and time if none.
    pub key: Option<String>,
    /// The title of the new migration; none if none.
    pub title: Option<String>,
    /// Also create a new down migration file.
    pub down: bool,
}

#[derive(Debug, Clone, PartialEq, Eq)]
pub struct MigrateArgs {
    /// Only applies new migrations up to the migration with this key.
    pub to: Option<String>,
    /// Do not verify the checksums of applied migrations.
    pub ignore_checksum: bool,
    /// Do not verify the order of migrations to apply.
    pub ignore_order: bool,
}

#[derive(Debug, Clone, PartialEq, Eq)]
pub struct RevertArgs {
    /// Only reverts migrations down to the migration with this key.
    pub to: Option<String>,
}

#[derive(Debug, Clone, Copy, PartialEq, Eq)]
pub struct ListArgs {
    /// List forward migrations (default).
    pub up: bool,
    /// List only backward migrations.
    pub down: bool,
    /// List only applied migrations.
    pub applied: bool,
    /// List only migrations not applied yet.
    pub open: bool,
}

#[derive(Debug, Clone, Copy, PartialEq, Eq)]
pub struct VerifyArgs {
    /// Only verify the checksums.
    pub checksum: bool,
    /// Only verify the order.
    pub order: bool,
}

} // verus!
