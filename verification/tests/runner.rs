use indexmap::IndexMap;
use surrealdb_migrate::checksum::Checksum;
use surrealdb_migrate::config::RunnerConfig;
use surrealdb_migrate::error::{DefinitionError, Error};
use surrealdb_migrate::key::{KeyCode, MigrationKey};
use surrealdb_migrate::keyed::executions_by_key;
use surrealdb_migrate::migration::{
    Execution, ExecutionTime, Migration, MigrationKind, Problem, ScriptContent, Timestamp,
};
use surrealdb_migrate::action::Checks;
use surrealdb_migrate::listing::KindCriteria;
use surrealdb_migrate::result::Verified;
use surrealdb_migrate::runner::MigrationRunner;

fn key(value: &str) -> MigrationKey {
    MigrationKey::parse(value).expect("invalid migration key")
}

fn script(k: &str, kind: MigrationKind, checksum: u32) -> ScriptContent {
    ScriptContent {
        key: key(k),
        kind,
        path: format!("migrations/{k}_x.surql"),
        content: format!("-- {k}"),
        checksum: Checksum(checksum),
    }
}

fn execution(k: &str, rank: i64, checksum: u32) -> Execution {
    Execution {
        key: key(k),
        applied_rank: rank,
        applied_by: "some.user".into(),
        applied_at: Timestamp::default(),
        checksum: Checksum(checksum),
        execution_time: ExecutionTime::default(),
    }
}

fn migration(k: &str, kind: MigrationKind) -> Migration {
    Migration {
        key: key(k),
        title: "x".into(),
        kind,
        script_path: format!("migrations/{k}_x.surql"),
    }
}

fn keys_of<V>(map: &IndexMap<KeyCode, V>) -> Vec<KeyCode> {
    map.keys().copied().collect()
}

#[test]
fn plan_lists_new_forward_migrations() {
    let runner = MigrationRunner::new(RunnerConfig::default());
    let scripts = vec![
        script("20250101_000000", MigrationKind::Up, 1),
        script("20250102_000000", MigrationKind::Up, 2),
        script("20250102_000000", MigrationKind::Down, 3),
        script("20250103_000000", MigrationKind::Up, 4),
    ];
    let executed = executions_by_key(vec![execution("20250101_000000", 1, 1)]);

    let planned = runner.plan_migration(&scripts, &executed).expect("nothing to refuse");

    assert_eq!(
        keys_of(&planned),
        vec![key("20250102_000000").key_code(), key("20250103_000000").key_code()]
    );
}

#[test]
fn plan_refuses_changed_migrations_first() {
    let runner = MigrationRunner::new(RunnerConfig::default());
    let scripts = vec![
        script("20250101_000000", MigrationKind::Up, 1),
        script("20250102_000000", MigrationKind::Up, 2),
        script("20250103_000000", MigrationKind::Up, 3),
    ];
    let executed = executions_by_key(vec![
        execution("20250101_000000", 1, 99),
        execution("20250103_000000", 2, 3),
    ]);

    match runner.plan_migration(&scripts, &executed) {
        Err(Error::ChangedAfterExecution(problems)) => {
            assert_eq!(problems.len(), 1);
            assert_eq!(problems[0].key, key("20250101_000000"));
        },
        other => panic!("expected changed migrations, got {other:?}"),
    }
}

#[test]
fn plan_refuses_migrations_out_of_order() {
    let runner = MigrationRunner::new(RunnerConfig::default());
    let scripts = vec![
        script("20250101_000000", MigrationKind::Up, 1),
        script("20250102_000000", MigrationKind::Up, 2),
        script("20250103_000000", MigrationKind::Up, 3),
    ];
    let executed = executions_by_key(vec![
        execution("20250101_000000", 1, 1),
        execution("20250103_000000", 2, 3),
    ]);

    match runner.plan_migration(&scripts, &executed) {
        Err(Error::OutOfOrder(problems)) => {
            assert_eq!(problems.len(), 1);
            assert_eq!(problems[0].key, key("20250102_000000"));
            assert_eq!(
                problems[0].problem,
                Problem::OutOfOrder {
                    last_applied_key: key("20250103_000000")
                }
            );
        },
        other => panic!("expected migrations out of order, got {other:?}"),
    }
}

#[test]
fn plan_ignoring_order_applies_the_gap() {
    let runner = MigrationRunner::new(RunnerConfig::default().with_ignore_order(true));
    let scripts = vec![
        script("20250101_000000", MigrationKind::Up, 1),
        script("20250102_000000", MigrationKind::Up, 2),
        script("20250103_000000", MigrationKind::Up, 3),
    ];
    let executed = executions_by_key(vec![
        execution("20250101_000000", 1, 1),
        execution("20250103_000000", 2, 3),
    ]);

    let planned = runner.plan_migration(&scripts, &executed).expect("order is ignored");

    assert_eq!(keys_of(&planned), vec![key("20250102_000000").key_code()]);
}

#[test]
fn forward_migrations_are_sorted_by_key() {
    let entries = vec![
        Ok(migration("20250103_000000", MigrationKind::Up)),
        Ok(migration("20250101_000000", MigrationKind::Down)),
        Ok(migration("20250101_000000", MigrationKind::Up)),
        Ok(migration("20250102_000000", MigrationKind::Baseline)),
    ];

    let sorted = MigrationRunner::forward_migrations(entries).expect("no error");

    assert_eq!(
        sorted,
        vec![
            migration("20250101_000000", MigrationKind::Up),
            migration("20250102_000000", MigrationKind::Baseline),
            migration("20250103_000000", MigrationKind::Up),
        ]
    );
}

#[test]
fn forward_migrations_fail_with_the_first_error() {
    let entries = vec![
        Ok(migration("20250103_000000", MigrationKind::Up)),
        Err(Error::Definition(DefinitionError::MissingDate)),
        Err(Error::Definition(DefinitionError::MissingTime)),
    ];

    assert_eq!(
        MigrationRunner::forward_migrations(entries),
        Err(Error::Definition(DefinitionError::MissingDate))
    );
}

#[test]
fn executions_keep_the_first_place_of_a_key() {
    let executed = executions_by_key(vec![
        execution("20250102_000000", 1, 1),
        execution("20250101_000000", 2, 2),
        execution("20250102_000000", 3, 3),
    ]);

    assert_eq!(
        keys_of(&executed),
        vec![key("20250102_000000").key_code(), key("20250101_000000").key_code()]
    );
    assert_eq!(executed[&key("20250102_000000").key_code()].applied_rank, 3);
}

fn problem_keys(verified: &Verified) -> Vec<(MigrationKey, bool)> {
    match verified {
        Verified::FoundProblems(problems) => problems
            .iter()
            .map(|pm| (pm.key, matches!(pm.problem, Problem::ChecksumMismatch { .. })))
            .collect(),
        _ => vec![],
    }
}

#[test]
fn verification_without_migrations_finds_none() {
    let executed = executions_by_key(vec![execution("20250101_000000", 1, 1)]);
    let verified = MigrationRunner::verification(Checks::all(), &[], &executed);
    assert_eq!(verified, Verified::NoMigrationsFound);
}

#[test]
fn verification_of_consistent_migrations_finds_no_problem() {
    let scripts = vec![
        script("20250101_000000", MigrationKind::Up, 1),
        script("20250102_000000", MigrationKind::Up, 2),
    ];
    let executed = executions_by_key(vec![execution("20250101_000000", 1, 1)]);
    let verified = MigrationRunner::verification(Checks::all(), &scripts, &executed);
    assert_eq!(verified, Verified::NoProblemsFound);
}

#[test]
fn verification_lists_changed_then_out_of_order_migrations() {
    let scripts = vec![
        script("20250101_000000", MigrationKind::Up, 1),
        script("20250102_000000", MigrationKind::Up, 2),
        script("20250103_000000", MigrationKind::Up, 3),
    ];
    let executed = executions_by_key(vec![
        execution("20250101_000000", 1, 1),
        execution("20250103_000000", 2, 30),
    ]);
    let verified = MigrationRunner::verification(Checks::all(), &scripts, &executed);
    assert_eq!(
        problem_keys(&verified),
        vec![(key("20250103_000000"), true), (key("20250102_000000"), false)]
    );
}

#[test]
fn verification_runs_only_the_checks_asked_for() {
    let scripts = vec![
        script("20250101_000000", MigrationKind::Up, 1),
        script("20250102_000000", MigrationKind::Up, 2),
        script("20250103_000000", MigrationKind::Up, 3),
    ];
    let executed = executions_by_key(vec![
        execution("20250101_000000", 1, 1),
        execution("20250103_000000", 2, 30),
    ]);
    let order_only = Checks { checksum: false, order: true };
    assert_eq!(
        problem_keys(&MigrationRunner::verification(order_only, &scripts, &executed)),
        vec![(key("20250102_000000"), false)]
    );
    let checksum_only = Checks { checksum: true, order: false };
    assert_eq!(
        problem_keys(&MigrationRunner::verification(checksum_only, &scripts, &executed)),
        vec![(key("20250103_000000"), true)]
    );
    let executed = executions_by_key(vec![execution("20250103_000000", 1, 3)]);
    assert_eq!(
        MigrationRunner::verification(checksum_only, &scripts, &executed),
        Verified::NoProblemsFound
    );
}

#[test]
fn defined_backward_migrations_are_sorted_by_key() {
    let entries = vec![
        Ok(migration("20250103_000000", MigrationKind::Down)),
        Ok(migration("20250101_000000", MigrationKind::Up)),
        Ok(migration("20250102_000000", MigrationKind::Down)),
    ];
    let defined = MigrationRunner::defined_migrations(entries, KindCriteria::Backward)
        .expect("no error among the entries");
    assert_eq!(
        defined,
        vec![
            migration("20250102_000000", MigrationKind::Down),
            migration("20250103_000000", MigrationKind::Down),
        ]
    );
}

#[test]
fn defined_migrations_of_any_kind_keep_all() {
    let entries = vec![
        Ok(migration("20250102_000000", MigrationKind::Up)),
        Ok(migration("20250101_000000", MigrationKind::Down)),
    ];
    let defined = MigrationRunner::defined_migrations(entries, KindCriteria::Any)
        .expect("no error among the entries");
    assert_eq!(
        defined,
        vec![
            migration("20250101_000000", MigrationKind::Down),
            migration("20250102_000000", MigrationKind::Up),
        ]
    );
}

#[test]
fn defined_migrations_fail_with_the_first_error() {
    let entries = vec![
        Ok(migration("20250101_000000", MigrationKind::Up)),
        Err(Error::Definition(DefinitionError::MissingDate)),
        Err(Error::Definition(DefinitionError::MissingTime)),
    ];
    assert_eq!(
        MigrationRunner::defined_migrations(entries, KindCriteria::Forward),
        Err(Error::Definition(DefinitionError::MissingDate))
    );
}
