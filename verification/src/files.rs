//! Migration script files: what scanning the migrations folder makes of its
//! entries, the content of a script, and the files of new migrations.
use crate::checksum::{hash_migration_script, hashed_bytes, crc32_value};
use crate::definition::{
    checked_view, extension_for, filename_of, parse_migration_from_path, path_parse_result,
    MigrationFilenameStrategy,
};
use crate::error::Error;
use crate::key::formatted_key;
use crate::migration::{Migration, MigrationKind, NewMigration, ScriptContent};
use crate::pattern::{excludes, pattern_views, ExcludedFiles};
use crate::text::{append_text, join_path, join_path_exec, string_of};
use vstd::prelude::*;

verus! {

/// What scanning the migrations folder makes of one of its entries.
#[derive(Debug, PartialEq, Eq)]
pub enum ScannedEntry {
    /// A directory or an excluded file.
    Skipped,
    /// A file that defines a migration, or the error why it defines none.
    Defined(Result<Migration, Error>),
    /// A file name where reading the key would take a slice off a character
    /// boundary.
    Unreadable,
}

/// The message for a migrations folder that does not exist.
pub open spec fn missing_folder_text(path: Seq<char>) -> Seq<char> {
    "migrations folder \""@ + path + "\" does not exist"@
}

/// Writes the message for a migrations folder that does not exist.
pub fn missing_folder_message(path: &str) -> (message: String)
    ensures
        message@ == missing_folder_text(path@),
{
    let mut out: Vec<char> = Vec::new();
    append_text(&mut out, "migrations folder \"");
    append_text(&mut out, path);
    append_text(&mut out, "\" does not exist");
    string_of(out.as_slice())
}

/// What scanning makes of the entry at `path`.
pub fn scan_entry(path: &str, is_dir: bool, excluded_files: &ExcludedFiles) -> (entry: ScannedEntry)
    ensures
        is_dir || excludes(pattern_views(excluded_files.pattern@), path@) ==> entry
            == ScannedEntry::Skipped,
        !is_dir && !excludes(pattern_views(excluded_files.pattern@), path@) ==> match entry {
            ScannedEntry::Skipped => false,
            ScannedEntry::Unreadable => path_parse_result(path@) is None,
            ScannedEntry::Defined(Ok(m)) => path_parse_result(path@) == Some(
                Ok::<crate::migration::MigrationView, crate::error::DefinitionErrorView>(m@),
            ),
            ScannedEntry::Defined(Err(Error::Definition(e))) => path_parse_result(path@) == Some(
                Err::<crate::migration::MigrationView, crate::error::DefinitionErrorView>(e@),
            ),
            ScannedEntry::Defined(Err(_)) => false,
        },
{
    if is_dir {
        return ScannedEntry::Skipped;
    }
    if excluded_files.matches(path) {
        return ScannedEntry::Skipped;
    }
    match parse_migration_from_path(path) {
        None => ScannedEntry::Unreadable,
        Some(Ok(m)) => ScannedEntry::Defined(Ok(m)),
        Some(Err(e)) => ScannedEntry::Defined(Err(Error::Definition(e))),
    }
}

/// The content of a migration's script together with its checksum.
pub fn script_content_of(migration: &Migration, content: String) -> (script: ScriptContent)
    ensures
        script.key == migration.key,
        script.kind == migration.kind,
        script.path == migration.script_path,
        script.content == content,
        script.checksum.0 == crc32_value(
            hashed_bytes(migration.script_path@, migration.kind, content@),
        ),
{
    let checksum = hash_migration_script(migration, content.as_str());
    ScriptContent {
        key: migration.key,
        kind: migration.kind,
        path: migration.script_path.clone(),
        content,
        checksum,
    }
}

/// The files of new migrations in a folder, named by a filename strategy.
#[derive(Debug, Clone, PartialEq, Eq)]
pub struct MigrationFiles {
    pub path: String,
    pub filename_strategy: MigrationFilenameStrategy,
}

impl MigrationFiles {
    pub fn new(path: String, filename_strategy: MigrationFilenameStrategy) -> (files: MigrationFiles)
        ensures
            files.path == path,
            files.filename_strategy == filename_strategy,
    {
        MigrationFiles { path, filename_strategy }
    }

    /// The migration whose script file is to be created for a new migration:
    /// its file is named by the strategy, in the folder.
    pub fn new_migration(&self, new_migration: NewMigration) -> (migration: Migration)
        requires
            new_migration.kind != MigrationKind::Baseline,
            new_migration.key.is_valid(),
        ensures
            migration.key == new_migration.key,
            migration.title == new_migration.title,
            migration.kind == new_migration.kind,
            migration.script_path@ == join_path(
                self.path@,
                filename_of(
                    formatted_key(new_migration.key),
                    new_migration.title@,
                    extension_for(new_migration.kind, self.filename_strategy.up_postfix),
                ),
            ),
    {
        let filename = self.filename_strategy.get_filename(&new_migration);
        let script_path = join_path_exec(self.path.as_str(), filename.as_str());
        Migration {
            key: new_migration.key,
            title: new_migration.title,
            kind: new_migration.kind,
            script_path,
        }
    }
}

} // verus!
