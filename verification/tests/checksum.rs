use std::str::FromStr;
use surrealdb_migrate::checksum::{
    decimal_string, hash_migration_script, signed_decimal_string, Checksum, ParseChecksumError,
};
use surrealdb_migrate::key::MigrationKey;
use surrealdb_migrate::migration::{Migration, MigrationKind};

fn migration(kind: MigrationKind, path: &str) -> Migration {
    Migration {
        key: MigrationKey::parse("20250103_140830").expect("valid key"),
        title: "x".into(),
        kind,
        script_path: path.into(),
    }
}

#[test]
fn checksum_is_written_in_decimal() {
    assert_eq!(Checksum(0).to_string(), "0".to_string());
    assert_eq!(Checksum(0x_4D65A4BF).to_string(), "1298506943".to_string());
    assert_eq!(Checksum(u32::MAX).to_string(), "4294967295".to_string());
}

#[test]
fn checksum_is_read_from_decimal() {
    assert_eq!(Checksum::from_str("1298506943"), Ok(Checksum(0x_4D65A4BF)));
    assert_eq!(Checksum::from_str("+17"), Ok(Checksum(17)));
    assert_eq!(Checksum::from_str("007"), Ok(Checksum(7)));
    assert_eq!(Checksum::from_str("4294967295"), Ok(Checksum(u32::MAX)));
}

#[test]
fn checksum_errors_carry_the_message_of_integer_parsing() {
    assert_eq!(
        Checksum::from_str(""),
        Err(ParseChecksumError::InvalidHashValue(
            "cannot parse integer from empty string".into()
        ))
    );
    assert_eq!(
        Checksum::from_str("12a"),
        Err(ParseChecksumError::InvalidHashValue(
            "invalid digit found in string".into()
        ))
    );
    assert_eq!(
        Checksum::from_str("+"),
        Err(ParseChecksumError::InvalidHashValue(
            "invalid digit found in string".into()
        ))
    );
    assert_eq!(
        Checksum::from_str("-1"),
        Err(ParseChecksumError::InvalidHashValue(
            "invalid digit found in string".into()
        ))
    );
    assert_eq!(
        Checksum::from_str("4294967296"),
        Err(ParseChecksumError::InvalidHashValue(
            "number too large to fit in target type".into()
        ))
    );
    assert_eq!(
        Checksum::from_str("99999999999x"),
        Err(ParseChecksumError::InvalidHashValue(
            "number too large to fit in target type".into()
        ))
    );
}

#[test]
fn the_errors_agree_with_those_of_u32() {
    for text in ["", "+", "-", "12a", "4294967296", "99999999999x", " 1", "1 "] {
        let expected = u32::from_str(text).map_err(|err| err.to_string());
        let read = Checksum::from_str(text).map(|c| c.0).map_err(|err| match err {
            ParseChecksumError::InvalidHashValue(m) | ParseChecksumError::UnsupportedAlgorithm(m) => m,
        });
        assert_eq!(read, expected, "reading {text:?}");
    }
}

#[test]
fn checksum_text_reads_back() {
    for value in [0, 1, 9, 10, 4711, 0x_8E8B2D8B, u32::MAX] {
        let text = Checksum(value).to_string();
        assert_eq!(Checksum::from_str(&text), Ok(Checksum(value)));
    }
}

#[test]
fn numbers_are_written_in_decimal() {
    assert_eq!(decimal_string(u64::MAX), "18446744073709551615".to_string());
    assert_eq!(signed_decimal_string(-42), "-42".to_string());
    assert_eq!(signed_decimal_string(i64::MIN), "-9223372036854775808".to_string());
    assert_eq!(signed_decimal_string(0), "0".to_string());
}

#[test]
fn hash_covers_file_name_kind_and_content() {
    let up = migration(MigrationKind::Up, "migrations/20250103_140830_x.surql");
    let down = migration(MigrationKind::Down, "other/dir/20250103_140830_x.surql");

    assert_eq!(hash_migration_script(&up, "SELECT 1;"), Checksum(1174438131));
    assert_eq!(hash_migration_script(&down, "SELECT 1;"), Checksum(2906078192));
}

#[test]
fn hash_of_path_without_file_name() {
    let baseline = migration(MigrationKind::Baseline, "");

    assert_eq!(hash_migration_script(&baseline, ""), Checksum(3523407757));
}
