//! Settings loaded from a configuration file and the environment: their
//! values, how environment variables become settings, and the configurations
//! they give.
use crate::config::{DbAuthLevel, DbClientConfig, RunnerConfig};
use crate::error::FilePatternError;
use crate::pattern::ExcludedFiles;
use crate::text::{append_text, chars_of, string_of};
use vstd::prelude::*;

verus! {

/// The environment variable that names the directory of the configuration
/// file.
pub const CONFIG_DIR_ENVIRONMENT_VAR: &'static str = "SURREALDB_MIGRATE_CONFIG_DIR";

/// The name of the configuration file, without its extension.
pub const CONFIG_FILENAME: &'static str = "surrealdb-migrate";

/// The settings of migrating.
#[derive(Debug, Clone, PartialEq, Eq)]
pub struct MigrationSettings {
    pub ignore_checksum: bool,
    pub ignore_order: bool,
}

/// The settings of the migration files.
#[derive(Debug, Clone, PartialEq, Eq)]
pub struct FilesSettings {
    pub migrations_folder: String,
    pub script_extension: String,
    pub up_script_extension: String,
    pub down_script_extension: String,
    pub exclude: String,
}

/// The settings of the database.
#[derive(Debug, Clone, PartialEq, Eq)]
pub struct DatabaseSettings {
    pub migrations_table: String,
    pub address: String,
    pub username: String,
    pub password: String,
    pub auth_level: DbAuthLevel,
    pub namespace: String,
    pub database: String,
    pub capacity: usize,
}

/// All settings.
#[derive(Debug, Clone, PartialEq, Eq)]
pub struct Settings {
    pub migration: MigrationSettings,
    pub files: FilesSettings,
    pub database: DatabaseSettings,
}

impl Settings {
    /// The configuration of the migration runner; fails where the patterns
    /// of excluded files are refused.
    pub fn runner_config(&self) -> (r: Result<RunnerConfig, FilePatternError>)
        ensures
            match r {
                Ok(config) => {
                    &&& crate::pattern::excluded_files_of(self.files.exclude@) matches Ok(ps)
                        && crate::pattern::pattern_views(config.excluded_files.pattern@) == ps
                    &&& config.migrations_folder == self.files.migrations_folder
                    &&& config.migrations_table == self.database.migrations_table
                    &&& config.ignore_checksum == self.migration.ignore_checksum
                    &&& config.ignore_order == self.migration.ignore_order
                },
                Err(e) => crate::pattern::excluded_files_of(self.files.exclude@) == Err::<
                    Seq<crate::pattern::FilePatternView>,
                    crate::error::FilePatternErrorView,
                >(e@),
            },
    {
        let excluded_files = ExcludedFiles::parse(self.files.exclude.as_str())?;
        Ok(
            RunnerConfig {
                migrations_folder: self.files.migrations_folder.clone(),
                excluded_files,
                migrations_table: self.database.migrations_table.clone(),
                ignore_checksum: self.migration.ignore_checksum,
                ignore_order: self.migration.ignore_order,
            },
        )
    }

    /// The configuration of the database client.
    pub fn db_client_config(&self) -> (config: DbClientConfig)
        ensures
            config.address == self.database.address,
            config.namespace == self.database.namespace,
            config.database == self.database.database,
            config.auth_level == self.database.auth_level,
            config.username == self.database.username,
            config.password == self.database.password,
            config.capacity == self.database.capacity,
    {
        DbClientConfig {
            address: self.database.address.clone(),
            namespace: self.database.namespace.clone(),
            database: self.database.database.clone(),
            auth_level: self.database.auth_level,
            username: self.database.username.clone(),
            password: self.database.password.clone(),
            capacity: self.database.capacity,
        }
    }
}

// ---------------------------------------------------------------------------
// Names
// ---------------------------------------------------------------------------

/// An ASCII capital letter as small letter; any other character as it is.
pub open spec fn ascii_lower(c: char) -> char {
    if 'A' <= c <= 'Z' {
        ((c as u32) + 32) as char
    } else {
        c
    }
}

/// The characters from position `offset` on, each `_` written as `-` and
/// each ASCII capital letter as small letter.
pub open spec fn kebab_case(s: Seq<char>, offset: int) -> Seq<char> {
    let rest = if offset < s.len() {
        s.skip(offset)
    } else {
        Seq::empty()
    };
    rest.map_values(|c: char| if c == '_' { '-' } else { ascii_lower(c) })
}

fn to_ascii_lower(c: char) -> (l: char)
    ensures
        l == ascii_lower(c),
{
    if 'A' <= c && c <= 'Z' {
        let v = (c as u8) + 32;
        v as char
    } else {
        c
    }
}

/// The name of a setting in an environment variable, from position `offset`
/// on, in kebab case: `SURMIG_DATABASE_AUTH_LEVEL` from 16 on is `auth-level`.
pub fn to_kebab_case(s: &str, offset: usize) -> (name: String)
    ensures
        name@ == kebab_case(s@, offset as int),
{
    let chars = chars_of(s);
    let mut out: Vec<char> = Vec::new();
    let mut i: usize = offset;
    let ghost rest = if offset < s@.len() {
        s@.skip(offset as int)
    } else {
        Seq::<char>::empty()
    };
    let ghost full = rest.map_values(|c: char| if c == '_' { '-' } else { ascii_lower(c) });
    while i < chars.len()
        invariant
            chars@ == s@,
            offset <= i,
            offset < chars.len() ==> i <= chars.len(),
            rest == (if offset < s@.len() {
                s@.skip(offset as int)
            } else {
                Seq::<char>::empty()
            }),
            full == rest.map_values(|c: char| if c == '_' { '-' } else { ascii_lower(c) }),
            i < chars.len() ==> out@ == full.take(i - offset),
            i >= chars.len() && offset < chars.len() ==> out@ == full.take(i - offset),
            offset >= chars.len() ==> out@.len() == 0,
        decreases chars.len() - i,
    {
        let c = chars[i];
        let k = if c == '_' {
            '-'
        } else {
            to_ascii_lower(c)
        };
        assert(rest[i - offset] == c);
        out.push(k);
        i += 1;
        assert(out@ =~= full.take(i - offset));
    }
    if offset < chars.len() {
        assert(full.take(i - offset) =~= full);
    } else {
        assert(out@ =~= full);
    }
    string_of(out.as_slice())
}

/// The level of authentication a name gives, ignoring ASCII case: `root`,
/// `namespace` or `database`.
pub open spec fn auth_level_named(s: Seq<char>) -> Option<DbAuthLevel> {
    let l = s.map_values(|c: char| ascii_lower(c));
    if l == "root"@ {
        Some(DbAuthLevel::Root)
    } else if l == "namespace"@ {
        Some(DbAuthLevel::Namespace)
    } else if l == "database"@ {
        Some(DbAuthLevel::Database)
    } else {
        None
    }
}

/// The level of authentication a setting names, ignoring ASCII case.
pub fn db_auth_level_from_name(v: &str) -> (level: Option<DbAuthLevel>)
    ensures
        level == auth_level_named(v@),
{
    let chars = chars_of(v);
    let mut lower: Vec<char> = Vec::new();
    let mut i: usize = 0;
    while i < chars.len()
        invariant
            chars@ == v@,
            i <= chars.len(),
            lower@ == v@.take(i as int).map_values(|c: char| ascii_lower(c)),
        decreases chars.len() - i,
    {
        lower.push(to_ascii_lower(chars[i]));
        i += 1;
        assert(lower@ =~= v@.take(i as int).map_values(|c: char| ascii_lower(c)));
    }
    assert(v@.take(i as int) =~= v@);
    let l = string_of(lower.as_slice());
    let root = String::from_str("root");
    let namespace = String::from_str("namespace");
    let database = String::from_str("database");
    if l == root {
        Some(DbAuthLevel::Root)
    } else if l == namespace {
        Some(DbAuthLevel::Namespace)
    } else if l == database {
        Some(DbAuthLevel::Database)
    } else {
        None
    }
}

// ---------------------------------------------------------------------------
// Settings from environment variables
// ---------------------------------------------------------------------------

/// The prefix of environment variables of the migration settings.
pub const MIGRATION_PREFIX: &'static str = "SURMIG_MIGRATION_";

/// The prefix of environment variables of the files settings.
pub const FILES_PREFIX: &'static str = "SURMIG_FILES_";

/// The prefix of environment variables of the database settings.
pub const DATABASE_PREFIX: &'static str = "SURMIG_DATABASE_";

/// The position of the first entry from `i` on named `name`, or -1.
pub open spec fn index_of_entry(entries: Seq<(Seq<char>, Seq<char>)>, name: Seq<char>, i: int) -> int
    decreases entries.len() - i,
{
    if i < 0 || i >= entries.len() {
        -1
    } else if entries[i].0 == name {
        i
    } else {
        index_of_entry(entries, name, i + 1)
    }
}

/// The entries after setting `name` to `value`: an entry of that name keeps
/// its place and takes the value, otherwise the entry goes last.
pub open spec fn set_entry(entries: Seq<(Seq<char>, Seq<char>)>, name: Seq<char>, value: Seq<char>) -> Seq<
    (Seq<char>, Seq<char>),
> {
    let i = index_of_entry(entries, name, 0);
    if i >= 0 {
        entries.update(i, (name, value))
    } else {
        entries.push((name, value))
    }
}

/// The section an environment variable belongs to: 0 for migration, 1 for
/// files, 2 for database, -1 for none.
pub open spec fn section_of(key: Seq<char>) -> int {
    if key.len() >= 17 && key.take(17) == MIGRATION_PREFIX@ {
        0
    } else if key.len() >= 16 && key.take(16) == DATABASE_PREFIX@ {
        2
    } else if key.len() >= 13 && key.take(13) == FILES_PREFIX@ {
        1
    } else {
        -1
    }
}

/// The length of the prefix of a section's variables.
pub open spec fn prefix_len(section: int) -> int {
    if section == 0 {
        17
    } else if section == 1 {
        13
    } else {
        16
    }
}

/// The settings of a section that the variables give, in the order in which
/// they were first given; a later variable of the same name wins.
pub open spec fn section_entries(vars: Seq<(Seq<char>, Seq<char>)>, section: int) -> Seq<
    (Seq<char>, Seq<char>),
>
    decreases vars.len(),
{
    if vars.len() == 0 {
        Seq::empty()
    } else {
        let rest = section_entries(vars.drop_last(), section);
        let (key, value) = vars.last();
        if section_of(key) == section {
            set_entry(rest, kebab_case(key, prefix_len(section)), value)
        } else {
            rest
        }
    }
}

/// The lines `name = "value"` of the entries.
pub open spec fn toml_lines(entries: Seq<(Seq<char>, Seq<char>)>) -> Seq<char>
    decreases entries.len(),
{
    if entries.len() == 0 {
        Seq::empty()
    } else {
        toml_lines(entries.drop_last()) + entries.last().0 + " = \""@ + entries.last().1 + "\"\n"@
    }
}

/// A table of settings: its header and lines, or nothing without entries.
pub open spec fn toml_table(header: Seq<char>, entries: Seq<(Seq<char>, Seq<char>)>) -> Seq<char> {
    if entries.len() == 0 {
        Seq::empty()
    } else {
        header + toml_lines(entries)
    }
}

/// The settings that the environment variables give, as TOML: the tables
/// `[migration]`, `[files]` and `[database]`, each with the variables of its
/// prefix named in kebab case.
pub open spec fn environment_settings(vars: Seq<(Seq<char>, Seq<char>)>) -> Seq<char> {
    toml_table("[migration]\n"@, section_entries(vars, 0)) + toml_table(
        "[files]\n"@,
        section_entries(vars, 1),
    ) + toml_table("[database]\n"@, section_entries(vars, 2))
}

pub open spec fn vars_view(vars: Seq<(String, String)>) -> Seq<(Seq<char>, Seq<char>)> {
    vars.map_values(|e: (String, String)| (e.0@, e.1@))
}

/// `true` when the characters start with the prefix.
fn starts_with_chars(s: &[char], prefix: &str) -> (b: bool)
    ensures
        b == (s@.len() >= prefix@.len() && s@.take(prefix@.len() as int) == prefix@),
{
    let p = chars_of(prefix);
    if p.len() > s.len() {
        return false;
    }
    let mut i: usize = 0;
    while i < p.len()
        invariant
            p@ == prefix@,
            p.len() <= s.len(),
            i <= p.len(),
            forall|k: int| 0 <= k < i ==> s@[k] == p@[k],
        decreases p.len() - i,
    {
        if s[i] != p[i] {
            assert(s@.take(p.len() as int)[i as int] != p@[i as int]);
            return false;
        }
        i += 1;
    }
    assert(s@.take(p.len() as int) =~= p@);
    true
}

/// Sets `name` to `value` among the entries, as `set_entry` says.
fn set_entry_exec(entries: &mut Vec<(String, String)>, name: String, value: String)
    ensures
        vars_view(final(entries)@) == set_entry(vars_view(old(entries)@), name@, value@),
{
    let ghost before = vars_view(entries@);
    let mut i: usize = 0;
    while i < entries.len()
        invariant
            i <= entries.len(),
            before == vars_view(entries@),
            before == vars_view(old(entries)@),
            index_of_entry(before, name@, 0) == index_of_entry(before, name@, i as int),
        decreases entries.len() - i,
    {
        assert(before[i as int] == (entries@[i as int].0@, entries@[i as int].1@));
        if entries[i].0 == name {
            assert(index_of_entry(before, name@, i as int) == i);
            entries.set(i, (name, value));
            assert(vars_view(entries@) =~= before.update(i as int, (name@, value@)));
            return;
        }
        i += 1;
    }
    assert(index_of_entry(before, name@, i as int) == -1);
    let ghost n = name@;
    let ghost v = value@;
    entries.push((name, value));
    assert(vars_view(entries@) =~= before.push((n, v)));
}

/// Appends a table of settings, as `toml_table` says.
fn push_table(out: &mut Vec<char>, header: &str, entries: &Vec<(String, String)>)
    ensures
        final(out)@ == old(out)@ + toml_table(header@, vars_view(entries@)),
{
    let ghost start = out@;
    let ghost all = vars_view(entries@);
    if entries.len() == 0 {
        assert(out@ =~= start + toml_table(header@, all));
        return;
    }
    append_text(out, header);
    let mut i: usize = 0;
    assert(all.take(0) =~= Seq::<(Seq<char>, Seq<char>)>::empty());
    while i < entries.len()
        invariant
            i <= entries.len(),
            all == vars_view(entries@),
            out@ == start + header@ + toml_lines(all.take(i as int)),
        decreases entries.len() - i,
    {
        assert(all.take(i + 1).drop_last() =~= all.take(i as int));
        assert(all.take(i + 1).last() == (entries@[i as int].0@, entries@[i as int].1@));
        append_text(out, entries[i].0.as_str());
        append_text(out, " = \"");
        append_text(out, entries[i].1.as_str());
        append_text(out, "\"\n");
        i += 1;
        assert(out@ =~= start + header@ + toml_lines(all.take(i as int)));
    }
    assert(all.take(i as int) =~= all);
    assert(out@ =~= start + toml_table(header@, all));
}

/// The settings that environment variables give, as TOML (see
/// `environment_settings`).
pub fn environment_toml(vars: &Vec<(String, String)>) -> (toml: String)
    ensures
        toml@ == environment_settings(vars_view(vars@)),
{
    let ghost all = vars_view(vars@);
    proof {
        reveal_strlit("SURMIG_MIGRATION_");
        reveal_strlit("SURMIG_FILES_");
        reveal_strlit("SURMIG_DATABASE_");
    }
    let mut migration: Vec<(String, String)> = Vec::new();
    let mut files: Vec<(String, String)> = Vec::new();
    let mut database: Vec<(String, String)> = Vec::new();
    let mut i: usize = 0;
    assert(all.take(0) =~= Seq::<(Seq<char>, Seq<char>)>::empty());
    assert(vars_view(migration@) =~= Seq::<(Seq<char>, Seq<char>)>::empty());
    assert(vars_view(files@) =~= Seq::<(Seq<char>, Seq<char>)>::empty());
    assert(vars_view(database@) =~= Seq::<(Seq<char>, Seq<char>)>::empty());
    while i < vars.len()
        invariant
            i <= vars.len(),
            all == vars_view(vars@),
            vars_view(migration@) == section_entries(all.take(i as int), 0),
            vars_view(files@) == section_entries(all.take(i as int), 1),
            vars_view(database@) == section_entries(all.take(i as int), 2),
        decreases vars.len() - i,
    {
        assert(all.take(i + 1).drop_last() =~= all.take(i as int));
        assert(all.take(i + 1).last() == (vars@[i as int].0@, vars@[i as int].1@));
        let key = &vars[i].0;
        let value = &vars[i].1;
        let key_chars = chars_of(key.as_str());
        proof {
            reveal_strlit("SURMIG_MIGRATION_");
            reveal_strlit("SURMIG_FILES_");
            reveal_strlit("SURMIG_DATABASE_");
        }
        if starts_with_chars(key_chars.as_slice(), MIGRATION_PREFIX) {
            assert(section_of(key@) == 0);
            set_entry_exec(&mut migration, to_kebab_case(key.as_str(), 17), value.clone());
        } else if starts_with_chars(key_chars.as_slice(), DATABASE_PREFIX) {
            assert(section_of(key@) == 2);
            set_entry_exec(&mut database, to_kebab_case(key.as_str(), 16), value.clone());
        } else if starts_with_chars(key_chars.as_slice(), FILES_PREFIX) {
            assert(section_of(key@) == 1);
            set_entry_exec(&mut files, to_kebab_case(key.as_str(), 13), value.clone());
        } else {
            assert(section_of(key@) == -1);
        }
        i += 1;
    }
    assert(all.take(i as int) =~= all);
    let mut out: Vec<char> = Vec::new();
    push_table(&mut out, "[migration]\n", &migration);
    push_table(&mut out, "[files]\n", &files);
    push_table(&mut out, "[database]\n", &database);
    assert(out@ =~= environment_settings(all));
    string_of(out.as_slice())
}

} // verus!
