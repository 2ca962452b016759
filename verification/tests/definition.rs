use surrealdb_migrate::definition::{
    parse_migration_from_path, parse_migration_from_str, MigrationFilenameStrategy,
};
use surrealdb_migrate::error::DefinitionError;
use surrealdb_migrate::key::MigrationKey;
use surrealdb_migrate::migration::{Migration, MigrationKind, NewMigration};

fn key(value: &str) -> MigrationKey {
    MigrationKey::parse(value).expect("invalid migration key")
}

fn migration(key_text: &str, title: &str, kind: MigrationKind, path: &str) -> Migration {
    Migration {
        key: key(key_text),
        title: title.into(),
        kind,
        script_path: path.into(),
    }
}

#[test]
fn tests_parse_migration_from_valid_file_path() {
    let path = "migrations/20250103_140830_define_some_table.surql";

    let migration_read = parse_migration_from_str(path);

    assert_eq!(
        migration_read,
        Some(Ok(migration("20250103_140830", "define some table", MigrationKind::Up, path)))
    );
}

#[test]
fn tests_parse_migration_from_filename_only() {
    let path = "20250103_140830_define_some_table.surql";

    let migration_read = parse_migration_from_str(path);

    assert_eq!(
        migration_read,
        Some(Ok(migration("20250103_140830", "define some table", MigrationKind::Up, path)))
    );
}

#[test]
fn tests_parse_migration_from_file_path_with_up_extension() {
    let path = "migrations/20250103_140830_define_some_table.up.surql";

    let migration_read = parse_migration_from_str(path);

    assert_eq!(
        migration_read,
        Some(Ok(migration("20250103_140830", "define some table", MigrationKind::Up, path)))
    );
}

#[test]
fn tests_parse_migration_from_file_path_with_down_extension() {
    let path = "migrations/20250103_140830_define_some_table.down.surql";

    let migration_read = parse_migration_from_str(path);

    assert_eq!(
        migration_read,
        Some(Ok(migration("20250103_140830", "define some table", MigrationKind::Down, path)))
    );
}

#[test]
fn path_parse_migration_from_valid_file_path() {
    let path = "migrations/20250103_140830_define_some_table.surql";

    let migration_read = parse_migration_from_path(path);

    assert_eq!(
        migration_read,
        Some(Ok(migration("20250103_140830", "define some table", MigrationKind::Up, path)))
    );
}

#[test]
fn path_parse_migration_from_file_path_with_up_extension() {
    let path = "migrations/20250103_140830_define_some_table.up.surql";

    let migration_read = parse_migration_from_path(path);

    assert_eq!(
        migration_read,
        Some(Ok(migration("20250103_140830", "define some table", MigrationKind::Up, path)))
    );
}

#[test]
fn path_parse_migration_from_file_path_with_down_extension() {
    let path = "migrations/20250103_140830_define_some_table.down.surql";

    let migration_read = parse_migration_from_path(path);

    assert_eq!(
        migration_read,
        Some(Ok(migration("20250103_140830", "define some table", MigrationKind::Down, path)))
    );
}

#[test]
fn path_parse_migration_from_filename_only() {
    let path = "20250103_140830_define_some_table.surql";

    let migration_read = parse_migration_from_path(path);

    assert_eq!(
        migration_read,
        Some(Ok(migration("20250103_140830", "define some table", MigrationKind::Up, path)))
    );
}

#[test]
fn tests_parse_migration_from_file_path_without_title() {
    let path = "migrations/20250103_140830.surql";

    let migration_read = parse_migration_from_path(path);

    assert_eq!(
        migration_read,
        Some(Ok(migration("20250103_140830", "", MigrationKind::Up, path)))
    );
}

#[test]
fn tests_parse_migration_from_file_path_without_date() {
    let path = "migrations/140830_define_some_table.surql";

    let migration_read = parse_migration_from_path(path);

    assert_eq!(
        migration_read,
        Some(Err(DefinitionError::InvalidDate("input is out of range".into())))
    );
}

#[test]
fn tests_parse_migration_from_file_path_without_time() {
    let path = "migrations/20250103_define_some_table.surql";

    let migration_read = parse_migration_from_path(path);

    assert_eq!(
        migration_read,
        Some(Err(DefinitionError::InvalidTime(
            "input contains invalid characters".into()
        )))
    );
}

#[test]
fn tests_parse_migration_from_file_path_with_up_and_down() {
    let path = "migrations/20250103_140830_define_some_table.up.down.surql";

    let migration_read = parse_migration_from_path(path);

    assert_eq!(migration_read, Some(Err(DefinitionError::AmbiguousDirection)));
}

#[test]
fn tests_parse_migration_from_file_path_without_a_filename() {
    let migration_read = parse_migration_from_path("migrations");

    assert_eq!(migration_read, Some(Err(DefinitionError::InvalidFilename)));
}

#[test]
fn tests_parse_migration_from_empty_path() {
    let migration_read = parse_migration_from_path("");

    assert_eq!(migration_read, Some(Err(DefinitionError::InvalidFilename)));
}

#[test]
fn parse_migration_with_missing_date() {
    let migration_read = parse_migration_from_str("2025.surql");

    assert_eq!(migration_read, Some(Err(DefinitionError::MissingDate)));
}

#[test]
fn parse_migration_with_missing_time() {
    let migration_read = parse_migration_from_str("20250103-140830.surql");

    assert_eq!(migration_read, Some(Err(DefinitionError::MissingTime)));
}

#[test]
fn parse_migration_with_leap_second() {
    let migration_read = parse_migration_from_str("20161231_235960_leap.surql");

    let expected = MigrationKey {
        year: 2016,
        month: 12,
        day: 31,
        hour: 23,
        minute: 59,
        second: 59,
        nanosecond: 1_000_000_000,
    };
    assert_eq!(migration_read.map(|r| r.map(|m| m.key)), Some(Ok(expected)));
}

#[test]
fn parse_migration_with_non_ascii_date_is_refused_without_slicing() {
    let migration_read = parse_migration_from_str("2025010é_140830_x.surql");

    assert_eq!(migration_read, None);
}

#[test]
fn parse_migration_of_wrong_extension() {
    let migration_read = parse_migration_from_str("migrations/20250103_140830_x.sql");

    assert_eq!(migration_read, Some(Err(DefinitionError::InvalidFilename)));
}

#[test]
fn parse_migration_with_up_and_down_markers_in_title() {
    let migration_read = parse_migration_from_str("20250103_140830_a.up.b.down.c.surql");

    assert_eq!(migration_read, Some(Err(DefinitionError::AmbiguousDirection)));
}

#[test]
fn get_filename_with_default_strategy_for_up_migration() {
    let filename_strategy = MigrationFilenameStrategy::default();

    let migration = NewMigration {
        key: key("20250114_092042"),
        title: "create some table".to_string(),
        kind: MigrationKind::Up,
    };

    let filename = filename_strategy.get_filename(&migration);

    assert_eq!(filename, "20250114_092042_create_some_table.up.surql".to_string());
}

#[test]
fn get_filename_with_default_strategy_for_down_migration() {
    let filename_strategy = MigrationFilenameStrategy::default();

    let migration = NewMigration {
        key: key("20250101_235959"),
        title: "create some table".to_string(),
        kind: MigrationKind::Down,
    };

    let filename = filename_strategy.get_filename(&migration);

    assert_eq!(filename, "20250101_235959_create_some_table.down.surql".to_string());
}

#[test]
fn get_filename_with_no_up_postfix_strategy_for_up_migration() {
    let filename_strategy = MigrationFilenameStrategy::default().with_up_postfix(false);

    let migration = NewMigration {
        key: key("20250101_235959"),
        title: "create some table".to_string(),
        kind: MigrationKind::Up,
    };

    let filename = filename_strategy.get_filename(&migration);

    assert_eq!(filename, "20250101_235959_create_some_table.surql".to_string());
}

#[test]
fn get_filename_with_no_up_postfix_strategy_for_down_migration() {
    let filename_strategy = MigrationFilenameStrategy::default().with_up_postfix(false);

    let migration = NewMigration {
        key: key("20250114_092042"),
        title: "create some table".to_string(),
        kind: MigrationKind::Down,
    };

    let filename = filename_strategy.get_filename(&migration);

    assert_eq!(filename, "20250114_092042_create_some_table.down.surql".to_string());
}

#[test]
fn get_filename_without_title() {
    let migration = NewMigration {
        key: key("20250114_092042"),
        title: String::new(),
        kind: MigrationKind::Up,
    };

    let filename = MigrationFilenameStrategy::default().get_filename(&migration);

    assert_eq!(filename, "20250114_092042.up.surql".to_string());
}

#[test]
fn filename_of_new_migration_reads_back_as_the_migration() {
    for (title, kind, up_postfix) in [
        ("create some_table", MigrationKind::Up, true),
        ("create some_table", MigrationKind::Up, false),
        ("drop the table", MigrationKind::Down, true),
        ("", MigrationKind::Down, false),
        ("größere Tabelle", MigrationKind::Up, true),
    ] {
        let strategy = MigrationFilenameStrategy { up_postfix };
        let new_migration = NewMigration {
            key: key("20250114_092042"),
            title: title.to_string(),
            kind,
        };
        let filename = strategy.get_filename(&new_migration);

        let migration_read = parse_migration_from_str(&filename);

        assert_eq!(
            migration_read,
            Some(Ok(Migration {
                key: key("20250114_092042"),
                title: title.replace('_', " "),
                kind,
                script_path: filename.clone(),
            }))
        );
    }
}

#[test]
fn key_is_written_and_read_back() {
    let k = key("20250103_140830");

    assert_eq!(k.to_key_string(), "20250103_140830".to_string());
    assert_eq!(
        k,
        MigrationKey {
            year: 2025,
            month: 1,
            day: 3,
            hour: 14,
            minute: 8,
            second: 30,
            nanosecond: 0
        }
    );
}

#[test]
fn key_with_invalid_date_is_refused() {
    assert_eq!(
        MigrationKey::parse("20250230_140830"),
        Err("input is out of range".to_string())
    );
}

#[test]
fn keys_of_the_calendar_are_valid() {
    assert!(key("20250101_000000").check_valid());
    assert!(key("20240229_235959").check_valid());
    let not_leap = MigrationKey {
        year: 2100,
        month: 2,
        day: 29,
        hour: 0,
        minute: 0,
        second: 0,
        nanosecond: 0,
    };
    assert!(!not_leap.check_valid());
    let leap_century = MigrationKey { year: 2000, ..not_leap };
    assert!(leap_century.check_valid());
    let late_hour = MigrationKey { year: 2025, month: 1, day: 1, hour: 24, ..not_leap };
    assert!(!late_hour.check_valid());
    let leap_second = MigrationKey { second: 59, nanosecond: 1_500_000_000, ..leap_century };
    assert!(leap_second.check_valid());
    let bad_leap_second = MigrationKey { second: 58, ..leap_second };
    assert!(!bad_leap_second.check_valid());
    let april_31 = MigrationKey { month: 4, day: 31, ..leap_century };
    assert!(!april_31.check_valid());
}

#[test]
fn any_filename_created_by_the_strategy_can_be_parsed_as_migration() {
    let cases = [
        ("19700101_000000", "a", MigrationKind::Up, false),
        ("20250103_140520", "define quote table", MigrationKind::Up, true),
        ("20250103_140520", "Ünïcode_title-2 x", MigrationKind::Down, false),
        ("99991231_235959", "z_", MigrationKind::Down, true),
    ];
    for (key_text, title, kind, up_postfix) in cases {
        let strategy = MigrationFilenameStrategy::default().with_up_postfix(up_postfix);
        let new_migration = NewMigration { key: key(key_text), title: title.into(), kind };
        let filename = strategy.get_filename(&new_migration);
        assert_eq!(
            parse_migration_from_str(&filename),
            Some(Ok(Migration {
                key: key(key_text),
                title: title.replace('_', " "),
                kind,
                script_path: filename.clone(),
            }))
        );
    }
}
