//! What migrating, reverting and verifying report.
use crate::key::MigrationKey;
use crate::migration::ProblematicMigration;
use vstd::prelude::*;

verus! {

/// Result of a migration action.
#[derive(Debug, Clone, Copy, PartialEq, Eq)]
pub enum Migrated {
    /// No migrations have been applied. The database is fully migrated already.
    Nothing,
    /// Migrated the database to the specified migration key (version).
    UpTo(MigrationKey),
    /// No forward migrations found in the migrations folder.
    NoForwardMigrationsFound,
}

/// Result of a revert action.
#[derive(Debug, Clone, Copy, PartialEq, Eq)]
pub enum Reverted {
    /// No migrations have been reverted. The database is completely reverted already.
    Nothing,
    /// Reverted the database to the specified migration key (version).
    DownTo(MigrationKey),
    /// Reverted all applied migrations.
    Completely,
    /// No backward migrations found in the migrations folder.
    NoBackwardMigrationsFound,
}

/// Result of verifying the applied migrations against the defined ones.
#[derive(Debug, Clone, PartialEq, Eq)]
pub enum Verified {
    /// No problem was found.
    NoProblemsFound,
    /// The migrations with problems.
    FoundProblems(Vec<ProblematicMigration>),
    /// No migrations are defined in the migrations folder.
    NoMigrationsFound,
}

} // verus!
