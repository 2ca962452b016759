//! Settings of the migration runner and of the database client.
use crate::pattern::{pattern_views, read_pattern, ExcludedFiles, FilePatternView};
use vstd::prelude::*;

verus! {

/// The folder of the migration scripts unless another is configured.
pub const DEFAULT_MIGRATIONS_FOLDER: &'static str = "migrations";

/// The table of executed migrations unless another is configured.
pub const DEFAULT_MIGRATIONS_TABLE: &'static str = "migrations";

/// The patterns of excluded files unless others are configured: dot files,
/// `README*` and `TODO*`.
pub const DEFAULT_EXCLUDED_FILES: &'static str = ".*|README*|TODO*";

/// The format of migration keys: date and time as `YYYYMMDD_HHMMSS`.
pub const MIGRATION_KEY_FORMAT_STR: &'static str = "%Y%m%d_%H%M%S";

/// The patterns of `DEFAULT_EXCLUDED_FILES`: `.*`, `README*` and `TODO*`.
pub open spec fn default_excluded_patterns() -> Seq<FilePatternView> {
    seq![read_pattern(".*"@), read_pattern("README*"@), read_pattern("TODO*"@)]
}

/// Settings of the migration runner.
#[derive(Debug, Clone, PartialEq, Eq)]
pub struct RunnerConfig {
    pub migrations_folder: String,
    pub excluded_files: ExcludedFiles,
    pub migrations_table: String,
    pub ignore_checksum: bool,
    pub ignore_order: bool,
}

impl Default for RunnerConfig {
    fn default() -> (config: RunnerConfig)
        ensures
            config.migrations_folder@ == DEFAULT_MIGRATIONS_FOLDER@,
            pattern_views(config.excluded_files.pattern@) == default_excluded_patterns(),
            config.migrations_table@ == DEFAULT_MIGRATIONS_TABLE@,
            !config.ignore_checksum,
            !config.ignore_order,
    {
        RunnerConfig {
            migrations_folder: String::from_str(DEFAULT_MIGRATIONS_FOLDER),
            excluded_files: ExcludedFiles::default(),
            migrations_table: String::from_str(DEFAULT_MIGRATIONS_TABLE),
            ignore_checksum: false,
            ignore_order: false,
        }
    }
}

impl RunnerConfig {
    pub fn with_migrations_folder(self, migrations_folder: String) -> (config: RunnerConfig)
        ensures
            config == (RunnerConfig { migrations_folder, ..self }),
    {
        RunnerConfig { migrations_folder, ..self }
    }

    pub fn with_migrations_table(self, migrations_table: String) -> (config: RunnerConfig)
        ensures
            config == (RunnerConfig { migrations_table, ..self }),
    {
        RunnerConfig { migrations_table, ..self }
    }

    pub fn with_ignore_checksum(self, ignore_checksum: bool) -> (config: RunnerConfig)
        ensures
            config == (RunnerConfig { ignore_checksum, ..self }),
    {
        RunnerConfig { ignore_checksum, ..self }
    }

    pub fn with_ignore_order(self, ignore_order: bool) -> (config: RunnerConfig)
        ensures
            config == (RunnerConfig { ignore_order, ..self }),
    {
        RunnerConfig { ignore_order, ..self }
    }
}

/// The kind of system user that authenticates to the database.
#[derive(Debug, Clone, Copy, PartialEq, Eq, Structural)]
pub enum DbAuthLevel {
    Root,
    Namespace,
    Database,
}

/// Settings of the database client.
#[derive(Debug, Clone, PartialEq, Eq)]
pub struct DbClientConfig {
    /// Address of the database instance, such as `ws://localhost:8000`.
    pub address: String,
    /// Namespace to use on the database instance.
    pub namespace: String,
    /// Database to use inside the database instance.
    pub database: String,
    /// The kind of the system user used for authentication.
    pub auth_level: DbAuthLevel,
    /// Username used to authenticate to the database instance.
    pub username: String,
    /// Password used to authenticate to the database instance.
    pub password: String,
    /// Capacity of the channels to the database; 0 is unbounded.
    pub capacity: usize,
}

impl Default for DbClientConfig {
    fn default() -> (config: DbClientConfig)
        ensures
            config.address@ == "ws://localhost:8000"@,
            config.namespace@ == "test"@,
            config.database@ == "test"@,
            config.auth_level == DbAuthLevel::Root,
            config.username@ == "root"@,
            config.password@ == "root"@,
            config.capacity == 20,
    {
        DbClientConfig {
            address: String::from_str("ws://localhost:8000"),
            namespace: String::from_str("test"),
            database: String::from_str("test"),
            auth_level: DbAuthLevel::Root,
            username: String::from_str("root"),
            password: String::from_str("root"),
            capacity: 20,
        }
    }
}

impl DbClientConfig {
    pub fn with_address(self, address: String) -> (config: DbClientConfig)
        ensures
            config == (DbClientConfig { address, ..self }),
    {
        DbClientConfig { address, ..self }
    }

    pub fn with_namespace(self, namespace: String) -> (config: DbClientConfig)
        ensures
            config == (DbClientConfig { namespace, ..self }),
    {
        DbClientConfig { namespace, ..self }
    }

    pub fn with_database(self, database: String) -> (config: DbClientConfig)
        ensures
            config == (DbClientConfig { database, ..self }),
    {
        DbClientConfig { database, ..self }
    }

    pub fn with_auth_level(self, auth_level: DbAuthLevel) -> (config: DbClientConfig)
        ensures
            config == (DbClientConfig { auth_level, ..self }),
    {
        DbClientConfig { auth_level, ..self }
    }

    pub fn with_username(self, username: String) -> (config: DbClientConfig)
        ensures
            config == (DbClientConfig { username, ..self }),
    {
        DbClientConfig { username, ..self }
    }

    pub fn with_password(self, password: String) -> (config: DbClientConfig)
        ensures
            config == (DbClientConfig { password, ..self }),
    {
        DbClientConfig { password, ..self }
    }

    pub fn with_capacity(self, capacity: usize) -> (config: DbClientConfig)
        ensures
            config == (DbClientConfig { capacity, ..self }),
    {
        DbClientConfig { capacity, ..self }
    }

    /// The address; `ws://localhost:8000` unless another one was set.
    pub fn address_or_default(&self) -> (address: &str)
        ensures
            address@ == self.address@,
    {
        self.address.as_str()
    }

    /// The namespace; `test` unless another one was set.
    pub fn namespace_or_default(&self) -> (namespace: &str)
        ensures
            namespace@ == self.namespace@,
    {
        self.namespace.as_str()
    }

    /// The database; `test` unless another one was set.
    pub fn database_or_default(&self) -> (database: &str)
        ensures
            database@ == self.database@,
    {
        self.database.as_str()
    }

    pub fn auth_level(&self) -> (auth_level: DbAuthLevel)
        ensures
            auth_level == self.auth_level,
    {
        self.auth_level
    }

    /// The username; `root` unless another one was set.
    pub fn username_or_default(&self) -> (username: &str)
        ensures
            username@ == self.username@,
    {
        self.username.as_str()
    }

    /// The password; `root` unless another one was set.
    pub fn password_or_default(&self) -> (password: &str)
        ensures
            password@ == self.password@,
    {
        self.password.as_str()
    }

    /// The capacity of the channels; 20 unless another one was set.
    pub fn capacity_or_default(&self) -> (capacity: usize)
        ensures
            capacity == self.capacity,
    {
        self.capacity
    }
}


/// What signing in to the database sends, by the level of the system user.
#[derive(Debug, Clone, PartialEq, Eq)]
pub enum SignInCredentials {
    Root { username: String, password: String },
    Namespace { namespace: String, username: String, password: String },
    Database { namespace: String, database: String, username: String, password: String },
}

impl DbClientConfig {
    /// The credentials to sign in with: the user and password, with the
    /// namespace for a namespace user and the namespace and database for a
    /// database user.
    pub fn sign_in_credentials(&self) -> (credentials: SignInCredentials)
        ensures
            match credentials {
                SignInCredentials::Root { username, password } => {
                    &&& self.auth_level == DbAuthLevel::Root
                    &&& username@ == self.username@
                    &&& password@ == self.password@
                },
                SignInCredentials::Namespace { namespace, username, password } => {
                    &&& self.auth_level == DbAuthLevel::Namespace
                    &&& namespace@ == self.namespace@
                    &&& username@ == self.username@
                    &&& password@ == self.password@
                },
                SignInCredentials::Database { namespace, database, username, password } => {
                    &&& self.auth_level == DbAuthLevel::Database
                    &&& namespace@ == self.namespace@
                    &&& database@ == self.database@
                    &&& username@ == self.username@
                    &&& password@ == self.password@
                },
            },
    {
        let username = self.username.clone();
        let password = self.password.clone();
        match self.auth_level {
            DbAuthLevel::Root => SignInCredentials::Root { username, password },
            DbAuthLevel::Namespace => SignInCredentials::Namespace {
                namespace: self.namespace.clone(),
                username,
                password,
            },
            DbAuthLevel::Database => SignInCredentials::Database {
                namespace: self.namespace.clone(),
                database: self.database.clone(),
                username,
                password,
            },
        }
    }
}

} // verus!
