//! The errors of the library.
use crate::migration::ProblematicMigration;
use vstd::prelude::*;

verus! {

/// Why a file name or path does not define a migration.
#[derive(Debug, Clone, PartialEq, Eq)]
pub enum DefinitionError {
    AmbiguousDirection,
    InvalidDate(String),
    InvalidFilename,
    InvalidTime(String),
    InvalidUtf8Character,
    MissingDate,
    MissingTime,
}

pub enum DefinitionErrorView {
    AmbiguousDirection,
    InvalidDate(Seq<char>),
    InvalidFilename,
    InvalidTime(Seq<char>),
    InvalidUtf8Character,
    MissingDate,
    MissingTime,
}

impl View for DefinitionError {
    type V = DefinitionErrorView;

    open spec fn view(&self) -> DefinitionErrorView {
        match self {
            DefinitionError::AmbiguousDirection => DefinitionErrorView::AmbiguousDirection,
            DefinitionError::InvalidDate(m) => DefinitionErrorView::InvalidDate(m@),
            DefinitionError::InvalidFilename => DefinitionErrorView::InvalidFilename,
            DefinitionError::InvalidTime(m) => DefinitionErrorView::InvalidTime(m@),
            DefinitionError::InvalidUtf8Character => DefinitionErrorView::InvalidUtf8Character,
            DefinitionError::MissingDate => DefinitionErrorView::MissingDate,
            DefinitionError::MissingTime => DefinitionErrorView::MissingTime,
        }
    }
}

/// Why a pattern of excluded files is refused.
#[derive(Debug, Clone, PartialEq, Eq)]
pub enum FilePatternError {
    EmptySubPatternNotAllowed,
    InvalidCharacter(Vec<char>),
    InvalidPattern(String),
}

pub enum FilePatternErrorView {
    EmptySubPatternNotAllowed,
    InvalidCharacter(Seq<char>),
    InvalidPattern(Seq<char>),
}

impl View for FilePatternError {
    type V = FilePatternErrorView;

    open spec fn view(&self) -> FilePatternErrorView {
        match self {
            FilePatternError::EmptySubPatternNotAllowed => FilePatternErrorView::EmptySubPatternNotAllowed,
            FilePatternError::InvalidCharacter(cs) => FilePatternErrorView::InvalidCharacter(cs@),
            FilePatternError::InvalidPattern(m) => FilePatternErrorView::InvalidPattern(m@),
        }
    }
}

/// The errors of reading, verifying and applying migrations.
#[derive(Debug, Clone, PartialEq, Eq)]
pub enum Error {
    ChangedAfterExecution(Vec<ProblematicMigration>),
    Configuration(String),
    CreatingMigrationsFolder(String),
    CreatingScriptFile(String),
    DbQuery(String),
    Definition(DefinitionError),
    ExecutionNotInserted(String),
    FetchingTableDefinitions(String),
    OutOfOrder(Vec<ProblematicMigration>),
    ReadingMigrationFile(String),
    ScanningMigrationDirectory(String),
}

} // verus!
