use surrealdb_migrate::config::{DbAuthLevel, DbClientConfig, RunnerConfig, DEFAULT_EXCLUDED_FILES};
use surrealdb_migrate::error::FilePatternError;
use surrealdb_migrate::pattern::ExcludedFiles;
use surrealdb_migrate::settings::{
    db_auth_level_from_name, environment_toml, to_kebab_case, DatabaseSettings, FilesSettings,
    MigrationSettings, Settings,
};

fn settings(exclude: &str) -> Settings {
    Settings {
        migration: MigrationSettings {
            ignore_checksum: true,
            ignore_order: false,
        },
        files: FilesSettings {
            migrations_folder: "database_migration/migrations".into(),
            script_extension: ".surql".into(),
            up_script_extension: ".up.surql".into(),
            down_script_extension: ".down.surql".into(),
            exclude: exclude.into(),
        },
        database: DatabaseSettings {
            migrations_table: "migration_executions".into(),
            address: "wss://localhost:9000".into(),
            username: "player".into(),
            password: "s3cr3t".into(),
            auth_level: DbAuthLevel::Database,
            namespace: "playground".into(),
            database: "thegame".into(),
            capacity: 150,
        },
    }
}

fn vars(pairs: &[(&str, &str)]) -> Vec<(String, String)> {
    pairs.iter().map(|(k, v)| (k.to_string(), v.to_string())).collect()
}

#[test]
fn get_runner_config_from_settings() {
    let runner_config = settings(".keep|.*ignore|README*|TODO*|FIXME*")
        .runner_config()
        .expect("valid patterns");

    assert_eq!(
        runner_config,
        RunnerConfig {
            migrations_folder: "database_migration/migrations".into(),
            excluded_files: ExcludedFiles::parse(".keep|.*ignore|README*|TODO*|FIXME*")
                .unwrap_or_else(|err| panic!("invalid excluded files string: {err:?}")),
            migrations_table: "migration_executions".into(),
            ignore_checksum: true,
            ignore_order: false,
        }
    );
}

#[test]
fn runner_config_refuses_invalid_patterns() {
    assert_eq!(
        settings("a|b?").runner_config(),
        Err(FilePatternError::InvalidCharacter(vec!['?']))
    );
}

#[test]
fn get_db_client_config_from_settings() {
    let db_client_config = settings(DEFAULT_EXCLUDED_FILES).db_client_config();

    assert_eq!(
        db_client_config,
        DbClientConfig {
            address: "wss://localhost:9000".into(),
            namespace: "playground".into(),
            database: "thegame".into(),
            auth_level: DbAuthLevel::Database,
            username: "player".into(),
            password: "s3cr3t".into(),
            capacity: 150,
        }
    );
}

#[test]
fn kebab_case_of_environment_variable_names() {
    assert_eq!(to_kebab_case("SURMIG_DATABASE_AUTH_LEVEL", 16), "auth-level".to_string());
    assert_eq!(to_kebab_case("SURMIG_FILES_EXCLUDE", 13), "exclude".to_string());
    assert_eq!(to_kebab_case("ABC", 5), String::new());
    assert_eq!(to_kebab_case("Ä_B", 0), "Ä-b".to_string());
}

#[test]
fn environment_variables_become_toml_tables() {
    let toml = environment_toml(&vars(&[
        ("PATH", "/usr/bin"),
        ("SURMIG_DATABASE_ADDRESS", "wss://localhost:8000"),
        ("SURMIG_MIGRATION_IGNORE_CHECKSUM", "true"),
        ("SURMIG_FILES_EXCLUDE", ".keep|.gitignore|TODO.md"),
        ("SURMIG_DATABASE_AUTH_LEVEL", "Namespace"),
        ("SURMIG_DATABASE_CAPACITY", "101"),
    ]));

    assert_eq!(
        toml,
        "[migration]\nignore-checksum = \"true\"\n\
         [files]\nexclude = \".keep|.gitignore|TODO.md\"\n\
         [database]\naddress = \"wss://localhost:8000\"\nauth-level = \"Namespace\"\ncapacity = \"101\"\n"
            .to_string()
    );
}

#[test]
fn no_environment_variables_give_no_toml() {
    assert_eq!(environment_toml(&vars(&[("HOME", "/root")])), String::new());
}

#[test]
fn auth_level_names_ignore_case() {
    assert_eq!(db_auth_level_from_name("Root"), Some(DbAuthLevel::Root));
    assert_eq!(db_auth_level_from_name("NAMESPACE"), Some(DbAuthLevel::Namespace));
    assert_eq!(db_auth_level_from_name("database"), Some(DbAuthLevel::Database));
    assert_eq!(db_auth_level_from_name("scope"), None);
}

#[test]
fn default_configs_are_as_documented() {
    let runner = RunnerConfig::default();
    assert_eq!(runner.migrations_folder, "migrations".to_string());
    assert_eq!(runner.migrations_table, "migrations".to_string());
    assert_eq!(runner.excluded_files.to_string(), DEFAULT_EXCLUDED_FILES.to_string());
    assert!(!runner.ignore_checksum && !runner.ignore_order);

    let db = DbClientConfig::default().with_namespace("playground".into());
    assert_eq!(db.address_or_default(), "ws://localhost:8000");
    assert_eq!(db.namespace_or_default(), "playground");
    assert_eq!(db.database_or_default(), "test");
    assert_eq!(db.auth_level(), DbAuthLevel::Root);
    assert_eq!(db.username_or_default(), "root");
    assert_eq!(db.password_or_default(), "root");
    assert_eq!(db.capacity_or_default(), 20);
}
