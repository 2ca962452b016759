use surrealdb_migrate::db::{extract_table_definition_version, migrations_table_info};
use surrealdb_migrate::error::Error;
use surrealdb_migrate::migration::MigrationsTableInfo;

const DEFINITION: &str =
    "DEFINE TABLE migrations TYPE NORMAL SCHEMAFULL COMMENT 'version:1.0' PERMISSIONS NONE";

#[test]
fn version_is_read_from_table_definition() {
    assert_eq!(extract_table_definition_version(DEFINITION), Some("1.0".to_string()));
}

#[test]
fn definition_without_version_has_none() {
    assert_eq!(extract_table_definition_version("DEFINE TABLE migrations"), None);
    assert_eq!(extract_table_definition_version("COMMENT 'version:1.0"), None);
}

#[test]
fn tables_that_could_not_be_read() {
    assert_eq!(
        migrations_table_info("migrations", None),
        Err(Error::FetchingTableDefinitions(String::new()))
    );
}

#[test]
fn database_without_tables() {
    assert_eq!(
        migrations_table_info("migrations", Some(vec![])),
        Ok(MigrationsTableInfo::NoTables)
    );
}

#[test]
fn database_without_migrations_table() {
    let tables = vec![("person".to_string(), "DEFINE TABLE person".to_string())];

    assert_eq!(
        migrations_table_info("migrations", Some(tables)),
        Ok(MigrationsTableInfo::Missing)
    );
}

#[test]
fn database_with_migrations_table() {
    let tables = vec![
        ("person".to_string(), "DEFINE TABLE person".to_string()),
        ("migrations".to_string(), DEFINITION.to_string()),
    ];

    assert_eq!(
        migrations_table_info("migrations", Some(tables)),
        Ok(MigrationsTableInfo::Table {
            name: "migrations".into(),
            version: Some("1.0".into()),
            definition: DEFINITION.into(),
        })
    );
}
