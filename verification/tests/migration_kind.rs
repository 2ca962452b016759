use surrealdb_migrate::listing::display_ordering;
use surrealdb_migrate::migration::MigrationKind;
use std::cmp::Ordering;

#[test]
fn down_migration_is_backward() {
    assert!(MigrationKind::Down.is_backward());
}

#[test]
fn any_migration_kind_is_any_and_all_but_down_are_forward() {
    for kind in [MigrationKind::Baseline, MigrationKind::Up, MigrationKind::Down] {
        assert!(kind.is_any());
        assert_eq!(kind.is_forward(), kind != MigrationKind::Down);
    }
    assert_eq!(MigrationKind::Baseline.as_str(), "baseline");
    assert_eq!(MigrationKind::Up.as_str(), "up");
    assert_eq!(MigrationKind::Down.as_str(), "down");
}

#[test]
fn migration_kind_baseline_is_less_than_up() {
    assert_eq!(display_ordering(MigrationKind::Baseline, MigrationKind::Up), Ordering::Less);
}

#[test]
fn migration_kind_baseline_is_less_than_down() {
    assert_eq!(display_ordering(MigrationKind::Baseline, MigrationKind::Down), Ordering::Less);
}

#[test]
fn migration_kind_up_is_less_than_down() {
    assert_eq!(display_ordering(MigrationKind::Up, MigrationKind::Down), Ordering::Less);
}

#[test]
fn migration_kind_up_is_greater_than_baseline() {
    assert_eq!(display_ordering(MigrationKind::Up, MigrationKind::Baseline), Ordering::Greater);
}

#[test]
fn migration_kind_down_is_greater_than_baseline() {
    assert_eq!(display_ordering(MigrationKind::Down, MigrationKind::Baseline), Ordering::Greater);
}

#[test]
fn migration_kind_down_is_greater_than_up() {
    assert_eq!(display_ordering(MigrationKind::Down, MigrationKind::Up), Ordering::Greater);
}

#[test]
fn migration_kind_baseline_is_equal_baseline() {
    assert_eq!(display_ordering(MigrationKind::Baseline, MigrationKind::Baseline), Ordering::Equal);
}

#[test]
fn migration_kind_up_is_equal_up() {
    assert_eq!(display_ordering(MigrationKind::Up, MigrationKind::Up), Ordering::Equal);
}

#[test]
fn migration_kind_down_is_equal_down() {
    assert_eq!(display_ordering(MigrationKind::Down, MigrationKind::Down), Ordering::Equal);
}
