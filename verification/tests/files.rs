use surrealdb_migrate::checksum::hash_migration_script;
use surrealdb_migrate::definition::MigrationFilenameStrategy;
use surrealdb_migrate::error::{DefinitionError, Error};
use surrealdb_migrate::files::{scan_entry, script_content_of, MigrationFiles, ScannedEntry};
use surrealdb_migrate::key::MigrationKey;
use surrealdb_migrate::migration::{Migration, MigrationKind, NewMigration};
use surrealdb_migrate::pattern::ExcludedFiles;

fn key(value: &str) -> MigrationKey {
    MigrationKey::parse(value).expect("invalid migration key")
}

#[test]
fn directories_and_excluded_files_are_skipped() {
    let excluded = ExcludedFiles::default();

    assert_eq!(scan_entry("migrations/sub", true, &excluded), ScannedEntry::Skipped);
    assert_eq!(scan_entry("migrations/.keep", false, &excluded), ScannedEntry::Skipped);
    assert_eq!(scan_entry("migrations/README.md", false, &excluded), ScannedEntry::Skipped);
}

#[test]
fn script_files_define_migrations() {
    let excluded = ExcludedFiles::default();

    assert_eq!(
        scan_entry("migrations/20250103_140830_x.up.surql", false, &excluded),
        ScannedEntry::Defined(Ok(Migration {
            key: key("20250103_140830"),
            title: "x".into(),
            kind: MigrationKind::Up,
            script_path: "migrations/20250103_140830_x.up.surql".into(),
        }))
    );
    assert_eq!(
        scan_entry("migrations/notes.txt", false, &ExcludedFiles::empty()),
        ScannedEntry::Defined(Err(Error::Definition(DefinitionError::InvalidFilename)))
    );
    assert_eq!(
        scan_entry("migrations/2025010é_140830_x.surql", false, &excluded),
        ScannedEntry::Unreadable
    );
}

#[test]
fn script_content_carries_the_checksum() {
    let migration = Migration {
        key: key("20250103_140830"),
        title: "x".into(),
        kind: MigrationKind::Up,
        script_path: "migrations/20250103_140830_x.surql".into(),
    };

    let script = script_content_of(&migration, "SELECT 1;".into());

    assert_eq!(script.checksum, hash_migration_script(&migration, "SELECT 1;"));
    assert_eq!(script.path, migration.script_path);
    assert_eq!(script.content, "SELECT 1;".to_string());
}

#[test]
fn new_migration_files_are_placed_in_the_folder() {
    let files = MigrationFiles::new("migrations".into(), MigrationFilenameStrategy::default());

    let migration = files.new_migration(NewMigration {
        key: key("20250114_092042"),
        title: "create some table".into(),
        kind: MigrationKind::Down,
    });

    assert_eq!(
        migration.script_path,
        "migrations/20250114_092042_create_some_table.down.surql".to_string()
    );
    assert_eq!(migration.title, "create some table".to_string());
}
