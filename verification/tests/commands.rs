use indexmap::IndexMap;
use surrealdb_migrate::action::{Check, Checks};
use surrealdb_migrate::args::{CreateArgs, MigrateArgs, VerifyArgs};
use surrealdb_migrate::checksum::Checksum;
use surrealdb_migrate::commands::{
    apply_command_args_to_runner_config, checks_from_args, migration_row, migrations_table_header,
    new_migrations_for, problem_message, problems_summary, sort_problems_by_key, target_key,
};
use surrealdb_migrate::config::{DbAuthLevel, DbClientConfig, RunnerConfig, SignInCredentials};
use surrealdb_migrate::key::{KeyCode, MigrationKey};
use surrealdb_migrate::listing::{list_entries, listing_title, KindCriteria};
use surrealdb_migrate::migration::{
    Execution, ExecutionTime, Migration, MigrationKind, NewMigration, Problem,
    ProblematicMigration, Timestamp,
};

fn key(value: &str) -> MigrationKey {
    MigrationKey::parse(value).expect("invalid migration key")
}

fn migration(k: &str, kind: MigrationKind) -> Migration {
    Migration {
        key: key(k),
        title: "some title".into(),
        kind,
        script_path: format!("migrations/{k}_some_title.surql"),
    }
}

fn execution(k: &str, rank: i64) -> Execution {
    Execution {
        key: key(k),
        applied_rank: rank,
        applied_by: "some.user".into(),
        applied_at: Timestamp {
            seconds: 1_736_000_000,
            nanoseconds: 0,
        },
        checksum: Checksum(4711),
        execution_time: ExecutionTime::default(),
    }
}

#[test]
fn checks_from_verify_options() {
    let only = |checksum, order| checks_from_args(&VerifyArgs { checksum, order });
    assert_eq!(only(true, false), Checks::only(Check::Checksum));
    assert_eq!(only(false, true), Checks::only(Check::Order));
    assert_eq!(only(true, true), Checks::all());
    assert_eq!(only(false, false), Checks::all());
}

#[test]
fn migrate_options_switch_checks_off() {
    let args = MigrateArgs {
        to: None,
        ignore_checksum: true,
        ignore_order: false,
    };
    let config = apply_command_args_to_runner_config(RunnerConfig::default(), &args);
    assert!(config.ignore_checksum);
    assert!(!config.ignore_order);

    let kept = apply_command_args_to_runner_config(
        RunnerConfig::default().with_ignore_order(true),
        &MigrateArgs {
            to: None,
            ignore_checksum: false,
            ignore_order: false,
        },
    );
    assert!(kept.ignore_order);
}

#[test]
fn target_key_is_read_after_trimming() {
    assert_eq!(target_key(" 20250103_140520\n"), Ok(key("20250103_140520")));
}

#[test]
fn target_key_missing() {
    assert_eq!(
        target_key("   "),
        Err("no key specified for option '--to'. please specify a key following the '--to' option in the format yyyymmdd_HHMMSS, e.g. --to 20250103_140520".to_string())
    );
}

#[test]
fn target_key_invalid() {
    assert_eq!(
        target_key(" 2025-01-03 "),
        Err("the argument in option '--to 2025-01-03' is not a valid migration key. please specify the key in the format yyyymmdd_HHMMSS, e.g. --to 20250103_140520".to_string())
    );
}

#[test]
fn new_migrations_with_down_migration() {
    let (up, down) = new_migrations_for(
        key("20250103_140520"),
        CreateArgs {
            key: None,
            title: Some("create table".into()),
            down: true,
        },
    );
    assert_eq!(
        up,
        NewMigration {
            key: key("20250103_140520"),
            title: "create table".into(),
            kind: MigrationKind::Up,
        }
    );
    assert_eq!(
        down,
        Some(NewMigration {
            key: key("20250103_140520"),
            title: "create table".into(),
            kind: MigrationKind::Down,
        })
    );
}

#[test]
fn new_migration_without_title() {
    let (up, down) = new_migrations_for(
        key("20250103_140520"),
        CreateArgs {
            key: None,
            title: None,
            down: false,
        },
    );
    assert_eq!(up.title, String::new());
    assert_eq!(down, None);
}

#[test]
fn problem_messages() {
    let changed = ProblematicMigration {
        key: key("20250109_125900"),
        kind: MigrationKind::Up,
        script_path: "migrations/x.surql".into(),
        problem: Problem::ChecksumMismatch {
            definition_checksum: Checksum(146_872_509),
            execution_checksum: Checksum(415_307_453),
        },
    };
    assert_eq!(
        problem_message(&changed),
        "* migration 20250109_125900 has changed - current checksum: 146872509, applied checksum: 415307453".to_string()
    );
    let late = ProblematicMigration {
        key: key("20250109_125900"),
        kind: MigrationKind::Up,
        script_path: "migrations/x.surql".into(),
        problem: Problem::OutOfOrder {
            last_applied_key: key("20250110_090059"),
        },
    };
    assert_eq!(
        problem_message(&late),
        "* migration 20250109_125900 is out of order - last applied migration is 20250110_090059".to_string()
    );
    assert_eq!(problems_summary(1), "\nFound 1 problematic migration.".to_string());
    assert_eq!(problems_summary(3), "\nFound 3 problematic migrations.".to_string());
}

#[test]
fn table_rows() {
    let mig = migration("20250103_140520", MigrationKind::Up);
    assert_eq!(
        migration_row(&mig, &Some(execution("20250103_140520", 7))),
        vec![
            "20250103_140520".to_string(),
            "some title".to_string(),
            "up".to_string(),
            "20250103_140520_some_title.surql".to_string(),
            "7".to_string(),
            "2025-01-04 14:13:20".to_string(),
            "some.user".to_string(),
            "4711".to_string(),
        ]
    );
    assert_eq!(
        migration_row(&mig, &None)[4..].to_vec(),
        vec![String::new(), String::new(), String::new(), String::new()]
    );
    assert_eq!(migrations_table_header().len(), 8);
}

#[test]
fn listing_shows_open_migrations_sorted() {
    let migrations = vec![
        migration("20250103_000000", MigrationKind::Up),
        migration("20250101_000000", MigrationKind::Down),
        migration("20250101_000000", MigrationKind::Up),
        migration("20250102_000000", MigrationKind::Up),
    ];
    let mut executed: IndexMap<KeyCode, Execution> = IndexMap::new();
    executed.insert(key("20250101_000000").key_code(), execution("20250101_000000", 1));

    let all = list_entries(migrations.clone(), &executed, false, false, false);
    let kinds: Vec<(MigrationKey, MigrationKind)> = all.iter().map(|(m, _)| (m.key, m.kind)).collect();
    assert_eq!(
        kinds,
        vec![
            (key("20250101_000000"), MigrationKind::Up),
            (key("20250101_000000"), MigrationKind::Down),
            (key("20250102_000000"), MigrationKind::Up),
            (key("20250103_000000"), MigrationKind::Up),
        ]
    );
    assert_eq!(all[0].1.as_ref().map(|e| e.applied_rank), Some(1));

    let open = list_entries(migrations, &executed, true, false, true);
    let open_keys: Vec<(MigrationKey, MigrationKind)> = open.iter().map(|(m, _)| (m.key, m.kind)).collect();
    assert_eq!(
        open_keys,
        vec![
            (key("20250103_000000"), MigrationKind::Up),
            (key("20250102_000000"), MigrationKind::Up),
            (key("20250101_000000"), MigrationKind::Down),
        ]
    );
}

#[test]
fn listing_titles_and_kinds() {
    assert_eq!(listing_title(false, false, false, true), "\nList of backward migrations:");
    assert_eq!(listing_title(false, true, false, true), "\nList of applied backward migrations:");
    assert_eq!(listing_title(true, false, false, true), "\nList of open backward migrations:");
    assert_eq!(listing_title(false, true, true, false), "\nList of applied migrations:");
    assert_eq!(listing_title(true, false, false, false), "\nList of open migrations:");
    assert_eq!(listing_title(true, true, true, true), "\nList of migrations:");
    assert_eq!(KindCriteria::for_options(false, false), KindCriteria::Forward);
    assert_eq!(KindCriteria::for_options(false, true), KindCriteria::Backward);
    assert_eq!(KindCriteria::for_options(true, true), KindCriteria::Any);
    assert!(KindCriteria::Forward.matches(MigrationKind::Baseline));
    assert!(!KindCriteria::Backward.matches(MigrationKind::Up));
}

fn late_problem(k: &str) -> ProblematicMigration {
    ProblematicMigration {
        key: key(k),
        kind: MigrationKind::Up,
        script_path: format!("migrations/{k}.surql"),
        problem: Problem::OutOfOrder { last_applied_key: key("20250110_000000") },
    }
}

#[test]
fn problems_are_sorted_by_key() {
    let problems = vec![
        late_problem("20250105_000000"),
        late_problem("20250102_000000"),
        late_problem("20250104_000000"),
        late_problem("20250102_000000"),
    ];
    let sorted = sort_problems_by_key(problems);
    let keys: Vec<MigrationKey> = sorted.iter().map(|pm| pm.key).collect();
    assert_eq!(
        keys,
        vec![
            key("20250102_000000"),
            key("20250102_000000"),
            key("20250104_000000"),
            key("20250105_000000"),
        ]
    );
    assert!(sort_problems_by_key(vec![]).is_empty());
}

#[test]
fn open_and_applied_migrations_split_the_listing() {
    let migrations = vec![
        migration("20250101_000000", MigrationKind::Up),
        migration("20250102_000000", MigrationKind::Up),
        migration("20250102_000000", MigrationKind::Down),
        migration("20250103_000000", MigrationKind::Down),
    ];
    let executed = surrealdb_migrate::keyed::executions_by_key(vec![
        execution("20250101_000000", 1),
        execution("20250103_000000", 2),
    ]);
    let all = list_entries(migrations.clone(), &executed, false, false, false);
    let both = list_entries(migrations.clone(), &executed, true, true, false);
    let open = list_entries(migrations.clone(), &executed, true, false, false);
    let applied = list_entries(migrations.clone(), &executed, false, true, false);
    assert_eq!(all.len(), 4);
    assert_eq!(both.len(), 4);
    assert_eq!(open.len(), 2);
    assert_eq!(applied.len(), 2);
    assert_eq!(open.len() + applied.len(), all.len());
}

#[test]
fn only_the_rank_column_is_right_aligned() {
    let columns = surrealdb_migrate::commands::right_aligned_columns();
    assert_eq!(columns.len(), migrations_table_header().len());
    assert_eq!(columns, vec![false, false, false, false, true, false, false, false]);
}

#[test]
fn sign_in_credentials_follow_the_auth_level() {
    let config = DbClientConfig::default()
        .with_namespace("playground".into())
        .with_database("examples".into())
        .with_username("example.user".into())
        .with_password("s3cr3t".into());
    assert_eq!(
        config.clone().sign_in_credentials(),
        SignInCredentials::Root { username: "example.user".into(), password: "s3cr3t".into() }
    );
    assert_eq!(
        config.clone().with_auth_level(DbAuthLevel::Namespace).sign_in_credentials(),
        SignInCredentials::Namespace {
            namespace: "playground".into(),
            username: "example.user".into(),
            password: "s3cr3t".into(),
        }
    );
    assert_eq!(
        config.with_auth_level(DbAuthLevel::Database).sign_in_credentials(),
        SignInCredentials::Database {
            namespace: "playground".into(),
            database: "examples".into(),
            username: "example.user".into(),
            password: "s3cr3t".into(),
        }
    );
}

#[test]
fn table_rows_write_the_applied_time_in_utc() {
    let mig = migration("20250103_140520", MigrationKind::Up);
    for (seconds, text) in [
        (-1, "1969-12-31 23:59:59"),
        (0, "1970-01-01 00:00:00"),
        (951_782_400, "2000-02-29 00:00:00"),
        (-62_167_219_200, "0000-01-01 00:00:00"),
        (253_402_300_799, "9999-12-31 23:59:59"),
    ] {
        let mut exe = execution("20250103_140520", 1);
        exe.applied_at = Timestamp { seconds, nanoseconds: 999_999_999 };
        assert_eq!(migration_row(&mig, &Some(exe))[5], text.to_string());
    }
}
