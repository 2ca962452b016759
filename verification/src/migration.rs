use vstd::prelude::*;

verus! {

/// The kind of a migration: a baseline, a forward (up) or a backward (down) migration.
#[derive(Debug, Clone, Copy, PartialEq, Eq, Structural)]
pub enum MigrationKind {
    Baseline,
    Up,
    Down,
}

impl MigrationKind {
    /// The name of the kind as used in texts: `"baseline"`, `"up"` or `"down"`.
    pub open spec fn spec_name(self) -> Seq<char> {
        match self {
            MigrationKind::Baseline => "baseline"@,
            MigrationKind::Up => "up"@,
            MigrationKind::Down => "down"@,
        }
    }

    pub fn as_str(&self) -> (name: &'static str)
        ensures
            name@ == self.spec_name(),
    {
        match self {
            MigrationKind::Baseline => "baseline",
            MigrationKind::Up => "up",
            MigrationKind::Down => "down",
        }
    }

    pub fn is_backward(&self) -> (b: bool)
        ensures
            b == (*self == MigrationKind::Down),
    {
        *self == MigrationKind::Down
    }

    pub fn is_forward(&self) -> (b: bool)
        ensures
            b == (*self != MigrationKind::Down),
    {
        !self.is_backward()
    }

    pub fn is_any(&self) -> (b: bool)
        ensures
            b,
    {
        true
    }
}

} // verus!

use crate::checksum::Checksum;
use crate::key::MigrationKey;

verus! {

/// A point in time in UTC: seconds since the Unix epoch and nanoseconds.
#[derive(Debug, Clone, Copy, PartialEq, Eq, Default)]
pub struct Timestamp {
    pub seconds: i64,
    pub nanoseconds: u32,
}

/// How long the execution of a script took: seconds and nanoseconds.
#[derive(Debug, Clone, Copy, PartialEq, Eq, Default)]
pub struct ExecutionTime {
    pub seconds: u64,
    pub nanoseconds: u32,
}

/// A migration that is to be created.
#[derive(Debug, Clone, PartialEq, Eq)]
pub struct NewMigration {
    pub key: MigrationKey,
    pub title: String,
    pub kind: MigrationKind,
}

pub struct NewMigrationView {
    pub key: MigrationKey,
    pub title: Seq<char>,
    pub kind: MigrationKind,
}

impl View for NewMigration {
    type V = NewMigrationView;

    open spec fn view(&self) -> NewMigrationView {
        NewMigrationView { key: self.key, title: self.title@, kind: self.kind }
    }
}

/// A migration defined by a script file.
#[derive(Debug, Clone, PartialEq, Eq)]
pub struct Migration {
    pub key: MigrationKey,
    pub title: String,
    pub kind: MigrationKind,
    pub script_path: String,
}

pub struct MigrationView {
    pub key: MigrationKey,
    pub title: Seq<char>,
    pub kind: MigrationKind,
    pub script_path: Seq<char>,
}

impl View for Migration {
    type V = MigrationView;

    open spec fn view(&self) -> MigrationView {
        MigrationView {
            key: self.key,
            title: self.title@,
            kind: self.kind,
            script_path: self.script_path@,
        }
    }
}

/// The content of a migration script together with its checksum.
#[derive(Debug, Clone, PartialEq, Eq)]
pub struct ScriptContent {
    pub key: MigrationKey,
    pub kind: MigrationKind,
    pub path: String,
    pub content: String,
    pub checksum: Checksum,
}

pub struct ScriptContentView {
    pub key: MigrationKey,
    pub kind: MigrationKind,
    pub path: Seq<char>,
    pub content: Seq<char>,
    pub checksum: Checksum,
}

impl View for ScriptContent {
    type V = ScriptContentView;

    open spec fn view(&self) -> ScriptContentView {
        ScriptContentView {
            key: self.key,
            kind: self.kind,
            path: self.path@,
            content: self.content@,
            checksum: self.checksum,
        }
    }
}

/// A migration that is to be applied to a database.
#[derive(Debug, Clone, PartialEq, Eq)]
pub struct ApplicableMigration {
    pub key: MigrationKey,
    pub kind: MigrationKind,
    pub script_content: String,
    pub checksum: Checksum,
}

pub struct ApplicableMigrationView {
    pub key: MigrationKey,
    pub kind: MigrationKind,
    pub script_content: Seq<char>,
    pub checksum: Checksum,
}

impl View for ApplicableMigration {
    type V = ApplicableMigrationView;

    open spec fn view(&self) -> ApplicableMigrationView {
        ApplicableMigrationView {
            key: self.key,
            kind: self.kind,
            script_content: self.script_content@,
            checksum: self.checksum,
        }
    }
}

/// The record of a migration applied to a database.
#[derive(Debug, Clone, PartialEq, Eq)]
pub struct Execution {
    pub key: MigrationKey,
    pub applied_rank: i64,
    pub applied_by: String,
    pub applied_at: Timestamp,
    pub checksum: Checksum,
    pub execution_time: ExecutionTime,
}

pub struct ExecutionView {
    pub key: MigrationKey,
    pub applied_rank: i64,
    pub applied_by: Seq<char>,
    pub applied_at: Timestamp,
    pub checksum: Checksum,
    pub execution_time: ExecutionTime,
}

impl View for Execution {
    type V = ExecutionView;

    open spec fn view(&self) -> ExecutionView {
        ExecutionView {
            key: self.key,
            applied_rank: self.applied_rank,
            applied_by: self.applied_by@,
            applied_at: self.applied_at,
            checksum: self.checksum,
            execution_time: self.execution_time,
        }
    }
}

/// The record of a migration reverted on a database.
#[derive(Debug, Clone, PartialEq, Eq)]
pub struct Reversion {
    pub key: MigrationKey,
    pub reverted_by: String,
    pub reverted_at: Timestamp,
    pub execution_time: ExecutionTime,
}

/// What is wrong with a migration.
#[derive(Debug, Clone, Copy, PartialEq, Eq)]
pub enum Problem {
    /// The script was changed after it had been applied.
    ChecksumMismatch { definition_checksum: Checksum, execution_checksum: Checksum },
    /// The migration is not applied, but a later one is.
    OutOfOrder { last_applied_key: MigrationKey },
}

/// A migration together with a problem found with it.
#[derive(Debug, Clone, PartialEq, Eq)]
pub struct ProblematicMigration {
    pub key: MigrationKey,
    pub kind: MigrationKind,
    pub script_path: String,
    pub problem: Problem,
}

pub struct ProblematicMigrationView {
    pub key: MigrationKey,
    pub kind: MigrationKind,
    pub script_path: Seq<char>,
    pub problem: Problem,
}

impl View for ProblematicMigration {
    type V = ProblematicMigrationView;

    open spec fn view(&self) -> ProblematicMigrationView {
        ProblematicMigrationView {
            key: self.key,
            kind: self.kind,
            script_path: self.script_path@,
            problem: self.problem,
        }
    }
}

/// What a database holds of the table that records executed migrations.
#[derive(Debug, Clone, PartialEq, Eq)]
pub enum MigrationsTableInfo {
    NoTables,
    Missing,
    Table { name: String, version: Option<String>, definition: String },
}

pub enum MigrationsTableInfoView {
    NoTables,
    Missing,
    Table { name: Seq<char>, version: Option<Seq<char>>, definition: Seq<char> },
}

impl View for MigrationsTableInfo {
    type V = MigrationsTableInfoView;

    open spec fn view(&self) -> MigrationsTableInfoView {
        match self {
            MigrationsTableInfo::NoTables => MigrationsTableInfoView::NoTables,
            MigrationsTableInfo::Missing => MigrationsTableInfoView::Missing,
            MigrationsTableInfo::Table { name, version, definition } => {
                MigrationsTableInfoView::Table {
                    name: name@,
                    version: match version {
                        Some(v) => Some(v@),
                        None => None,
                    },
                    definition: definition@,
                }
            },
        }
    }
}

} // verus!
