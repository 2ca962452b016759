//! The migration runner: what it decides between reading the migrations
//! folder and the database and applying scripts.
use crate::action::{
    applicable_pair, comes_from_selected, lemma_collected_keys, lemma_pairs_to_apply, changed_result, out_of_order_result, pairs_to_apply, problem_views, ListChangedAfterExecution,
    ListOutOfOrder, Migrate, MigrationsToApply, Verify,
};
use crate::config::RunnerConfig;
use crate::error::Error;
use crate::key::{code_lt, lemma_code_lt_total, lemma_code_lt_transitive, KeyCode};
use crate::keyed::{
    applicable_entries, collect_entries, execution_entries, has_key, index_of_key, insert_entry,
    lemma_collect_entries, lemma_index_of_key,
};
use crate::migration::{
    ApplicableMigration, ApplicableMigrationView, Execution, ExecutionView, Migration,
    MigrationKind, ScriptContent,
};
use crate::pattern::ExcludedFiles;
use crate::result::{Migrated, Reverted, Verified};
use crate::action::Checks;
use crate::listing::KindCriteria;
use crate::migration::{ProblematicMigration, ProblematicMigrationView};
use crate::keyed::{applicable_at, applicable_len};
use crate::key::MigrationKey;
use indexmap::IndexMap;
use vstd::prelude::*;

verus! {

broadcast use vstd::seq_lib::group_to_multiset_ensures;

/// Applies migrations to a database as configured.
#[derive(Debug, Clone, PartialEq, Eq)]
pub struct MigrationRunner {
    pub migrations_folder: String,
    pub excluded_files: ExcludedFiles,
    pub migrations_table: String,
    pub ignore_checksums: bool,
    pub ignore_order: bool,
}

/// The keys of migrations never decrease along the sequence.
pub open spec fn sorted_by_key(s: Seq<Migration>) -> bool {
    forall|i: int, j: int| 0 <= i < j < s.len() ==> !code_lt(s[j].key.code(), s[i].key.code())
}

/// The forward migrations of the entries, in their order.
pub open spec fn forward_only(entries: Seq<Migration>) -> Seq<Migration>
    decreases entries.len(),
{
    if entries.len() == 0 {
        Seq::empty()
    } else if entries.last().kind != MigrationKind::Down {
        forward_only(entries.drop_last()).push(entries.last())
    } else {
        forward_only(entries.drop_last())
    }
}

/// The first error among the entries, if any.
pub open spec fn first_error(entries: Seq<Result<Migration, Error>>) -> Option<Error>
    decreases entries.len(),
{
    if entries.len() == 0 {
        None
    } else {
        match first_error(entries.drop_last()) {
            Some(e) => Some(e),
            None => match entries.last() {
                Err(e) => Some(e),
                Ok(_) => None,
            },
        }
    }
}

/// The migrations of entries without errors, in their order.
pub open spec fn migrations_of(entries: Seq<Result<Migration, Error>>) -> Seq<Migration>
    decreases entries.len(),
{
    if entries.len() == 0 {
        Seq::empty()
    } else {
        match entries.last() {
            Ok(m) => migrations_of(entries.drop_last()).push(m),
            Err(_) => migrations_of(entries.drop_last()),
        }
    }
}

/// Inserts a migration into migrations sorted by key, after those with a
/// key that is not later.
fn insert_sorted(sorted: &mut Vec<Migration>, migration: Migration)
    requires
        sorted_by_key(old(sorted)@),
    ensures
        sorted_by_key(final(sorted)@),
        final(sorted)@.to_multiset() == old(sorted)@.to_multiset().insert(migration),
{
    let k = migration.key.key_code();
    let mut pos: usize = 0;
    while pos < sorted.len() && !crate::key::code_before(&k, &sorted[pos].key.key_code())
        invariant
            pos <= sorted.len(),
            forall|i: int| 0 <= i < pos ==> !code_lt(k, #[trigger] sorted@[i].key.code()),
        decreases sorted.len() - pos,
    {
        pos += 1;
    }
    let ghost before = sorted@;
    proof {
        vstd::seq_lib::to_multiset_insert(before, pos as int, migration);
    }
    sorted.insert(pos, migration);
    assert forall|i: int, j: int| 0 <= i < j < sorted@.len() implies !code_lt(
        sorted@[j].key.code(),
        sorted@[i].key.code(),
    ) by {
        let a = sorted@[i].key.code();
        let c = sorted@[j].key.code();
        lemma_code_lt_total(a, k);
        lemma_code_lt_total(c, k);
        lemma_code_lt_total(a, c);
        if i < pos && j == pos {
            assert(!code_lt(k, before[i].key.code()));
        } else if i == pos && j > pos {
            assert(sorted@[j] == before[j - 1]);
            if (j - 1) > pos {
                assert(!code_lt(before[j - 1].key.code(), before[pos as int].key.code()));
                lemma_code_lt_total(before[pos as int].key.code(), k);
                if code_lt(before[j - 1].key.code(), k) {
                    lemma_code_lt_transitive(k, before[pos as int].key.code(), before[j - 1].key.code());
                }
            }
        } else if i < pos && j > pos {
            assert(sorted@[j] == before[j - 1]);
            assert(sorted@[i] == before[i]);
        } else if j < pos {
            assert(sorted@[j] == before[j]);
            assert(sorted@[i] == before[i]);
        } else {
            assert(sorted@[j] == before[j - 1]);
            assert(sorted@[i] == before[i - 1]);
        }
    }
}

impl Default for MigrationRunner {
    /// A runner with the default configuration.
    fn default() -> (runner: MigrationRunner)
        ensures
            runner.migrations_folder@ == crate::config::DEFAULT_MIGRATIONS_FOLDER@,
            runner.migrations_table@ == crate::config::DEFAULT_MIGRATIONS_TABLE@,
            crate::pattern::pattern_views(runner.excluded_files.pattern@)
                == crate::config::default_excluded_patterns(),
            !runner.ignore_checksums,
            !runner.ignore_order,
    {
        MigrationRunner::new(RunnerConfig::default())
    }
}

impl MigrationRunner {
    pub fn new(config: RunnerConfig) -> (runner: MigrationRunner)
        ensures
            runner.migrations_folder == config.migrations_folder,
            runner.excluded_files == config.excluded_files,
            runner.migrations_table == config.migrations_table,
            runner.ignore_checksums == config.ignore_checksum,
            runner.ignore_order == config.ignore_order,
    {
        MigrationRunner {
            migrations_folder: config.migrations_folder,
            excluded_files: config.excluded_files,
            migrations_table: config.migrations_table,
            ignore_checksums: config.ignore_checksum,
            ignore_order: config.ignore_order,
        }
    }

    /// The settings of verifying that the runner applies.
    pub fn verify(&self) -> (verify: Verify)
        ensures
            verify.ignore_checksums == self.ignore_checksums,
            verify.ignore_order == self.ignore_order,
    {
        Verify { ignore_checksums: self.ignore_checksums, ignore_order: self.ignore_order }
    }

    /// The forward migrations of the scanned entries sorted by key; the first
    /// entry that is an error fails it.
    pub fn forward_migrations(entries: Vec<Result<Migration, Error>>) -> (r: Result<
        Vec<Migration>,
        Error,
    >)
        ensures
            match r {
                Ok(sorted) => {
                    &&& first_error(entries@) is None
                    &&& sorted_by_key(sorted@)
                    &&& sorted@.to_multiset() == forward_only(migrations_of(entries@)).to_multiset()
                },
                Err(e) => first_error(entries@) == Some(e),
            },
    {
        let ghost all = entries@;
        let mut sorted: Vec<Migration> = Vec::new();
        assert(all.take(0) =~= Seq::<Result<Migration, Error>>::empty());
        for entry in it: entries.into_iter()
            invariant
                it.seq() == all,
                first_error(all.take(it.index() as int)) is None,
                sorted_by_key(sorted@),
                sorted@.to_multiset() == forward_only(migrations_of(all.take(it.index() as int))).to_multiset(),
        {
            let ghost i = it.index() as int;
            assert(all.take(i + 1).drop_last() =~= all.take(i));
            match entry {
                Err(e) => {
                    proof {
                        lemma_first_error_stays(all, i + 1);
                    }
                    return Err(e);
                },
                Ok(migration) => {
                    let ghost m = migration;
                    let ghost before = migrations_of(all.take(i));
                    assert(migrations_of(all.take(i + 1)) == before.push(m));
                    assert(before.push(m).drop_last() =~= before);
                    if migration.kind.is_forward() {
                        insert_sorted(&mut sorted, migration);
                        assert(forward_only(before.push(m)) == forward_only(before).push(m));
                    } else {
                        assert(forward_only(before.push(m)) == forward_only(before));
                    }
                },
            }
        }
        assert(all.take(all.len() as int) =~= all);
        Ok(sorted)
    }

    /// Decides what migrating applies: fails with the migrations changed
    /// after their execution, then with those out of order, unless the
    /// runner ignores these checks; else lists the migrations to apply.
    pub fn plan_migration(
        &self,
        script_contents: &[ScriptContent],
        executed_migrations: &IndexMap<KeyCode, Execution>,
    ) -> (r: Result<IndexMap<KeyCode, ApplicableMigration>, Error>)
        ensures
            ({
                let verify = Verify {
                    ignore_checksums: self.ignore_checksums,
                    ignore_order: self.ignore_order,
                };
                let executed = execution_entries(*executed_migrations);
                let changed = changed_result(verify, script_contents@, executed);
                let out_of_order = out_of_order_result(verify, script_contents@, executed);
                match r {
                    Ok(map) => changed.len() == 0 && out_of_order.len() == 0
                        && applicable_entries(map) == collect_entries(
                        pairs_to_apply(script_contents@, executed, true),
                    ),
                    Err(Error::ChangedAfterExecution(problems)) => changed.len() > 0
                        && problem_views(problems@) == changed,
                    Err(Error::OutOfOrder(problems)) => changed.len() == 0 && out_of_order.len()
                        > 0 && problem_views(problems@) == out_of_order,
                    Err(_) => false,
                }
            }),
    {
        let verify = self.verify();
        let changed = verify.list_changed_after_execution(script_contents, executed_migrations);
        if changed.len() > 0 {
            return Err(Error::ChangedAfterExecution(changed));
        }
        let out_of_order = verify.list_out_of_order(script_contents, executed_migrations);
        if out_of_order.len() > 0 {
            return Err(Error::OutOfOrder(out_of_order));
        }
        let migrate = Migrate::new();
        Ok(migrate.list_migrations_to_apply(script_contents, executed_migrations))
    }
}

/// Once an entry is an error, later entries keep it as the first error.
proof fn lemma_first_error_stays(entries: Seq<Result<Migration, Error>>, k: int)
    requires
        0 <= k <= entries.len(),
        first_error(entries.take(k)) is Some,
    ensures
        first_error(entries) == first_error(entries.take(k)),
    decreases entries.len() - k,
{
    if k < entries.len() {
        assert(entries.take(k + 1).drop_last() =~= entries.take(k));
        lemma_first_error_stays(entries, k + 1);
    } else {
        assert(entries.take(k) =~= entries);
    }
}

/// The keys of script contents never decrease along the sequence.
pub open spec fn contents_sorted_by_key(s: Seq<ScriptContent>) -> bool {
    forall|i: int, j: int| 0 <= i < j < s.len() ==> !code_lt(s[j].key.code(), s[i].key.code())
}

proof fn lemma_pairs_ascending(
    defined: Seq<ScriptContent>,
    executed: Seq<(KeyCode, ExecutionView)>,
    forward: bool,
)
    requires
        contents_sorted_by_key(defined),
    ensures
        forall|i: int, j: int|
            0 <= i < j < pairs_to_apply(defined, executed, forward).len() ==> !code_lt(
                #[trigger] pairs_to_apply(defined, executed, forward)[j].0,
                #[trigger] pairs_to_apply(defined, executed, forward)[i].0,
            ),
    decreases defined.len(),
{
    if defined.len() > 0 {
        let d = defined.drop_last();
        assert(contents_sorted_by_key(d)) by {
            assert forall|i: int, j: int| 0 <= i < j < d.len() implies !code_lt(
                d[j].key.code(),
                d[i].key.code(),
            ) by {
                assert(d[i] == defined[i] && d[j] == defined[j]);
            }
        }
        lemma_pairs_ascending(d, executed, forward);
        lemma_pairs_to_apply(d, executed, forward);
        let p = pairs_to_apply(defined, executed, forward);
        let q = pairs_to_apply(d, executed, forward);
        let x = defined.last();
        assert forall|i: int, j: int| 0 <= i < j < p.len() implies !code_lt(
            #[trigger] p[j].0,
            #[trigger] p[i].0,
        ) by {
            if j < q.len() {
                assert(p[i] == q[i] && p[j] == q[j]);
            } else {
                assert(p[i] == q[i]);
                assert(p[j] == applicable_pair(x));
                assert(comes_from_selected(d, executed, forward, q[i]));
                let s = choose|s: int|
                    0 <= s < d.len() && q[i] == applicable_pair(d[s]) && crate::action::is_selected(
                        #[trigger] d[s],
                        executed,
                        forward,
                    );
                assert(d[s] == defined[s]);
                assert(!code_lt(x.key.code(), defined[s].key.code()));
            }
        }
    }
}

proof fn lemma_collect_ascending<V>(pairs: Seq<(KeyCode, V)>)
    requires
        forall|i: int, j: int|
            0 <= i < j < pairs.len() ==> !code_lt(#[trigger] pairs[j].0, #[trigger] pairs[i].0),
    ensures
        forall|i: int, j: int|
            0 <= i < j < collect_entries(pairs).len() ==> code_lt(
                #[trigger] collect_entries(pairs)[i].0,
                #[trigger] collect_entries(pairs)[j].0,
            ),
    decreases pairs.len(),
{
    if pairs.len() > 0 {
        let r = pairs.drop_last();
        let x = pairs.last();
        assert forall|i: int, j: int| 0 <= i < j < r.len() implies !code_lt(
            #[trigger] r[j].0,
            #[trigger] r[i].0,
        ) by {
            assert(r[i] == pairs[i] && r[j] == pairs[j]);
        }
        lemma_collect_ascending(r);
        let c = collect_entries(r);
        let n = collect_entries(pairs);
        lemma_collected_keys(r);
        lemma_index_of_key(c, x.0);
        assert forall|i: int, j: int| 0 <= i < j < n.len() implies code_lt(
            #[trigger] n[i].0,
            #[trigger] n[j].0,
        ) by {
            if has_key(c, x.0) {
                assert(n[i].0 == c[i].0 && n[j].0 == c[j].0);
            } else if j < c.len() {
                assert(n[i] == c[i] && n[j] == c[j]);
            } else {
                assert(n[i] == c[i]);
                assert(n[j] == x);
                let s = choose|s: int| 0 <= s < r.len() && r[s].0 == #[trigger] c[i].0;
                assert(r[s] == pairs[s]);
                assert(!code_lt(x.0, c[i].0));
                assert(c[i].0 != x.0);
                lemma_code_lt_total(x.0, c[i].0);
            }
        }
    }
}

/// When the scripts come in the order of their keys, migrating applies the
/// migrations in strictly ascending order of their keys.
pub proof fn law_migrations_apply_in_key_order(
    defined: Seq<ScriptContent>,
    executed: Seq<(KeyCode, ExecutionView)>,
)
    requires
        contents_sorted_by_key(defined),
    ensures
        forall|i: int, j: int|
            0 <= i < j < collect_entries(pairs_to_apply(defined, executed, true)).len() ==> code_lt(
                #[trigger] collect_entries(pairs_to_apply(defined, executed, true))[i].0,
                #[trigger] collect_entries(pairs_to_apply(defined, executed, true))[j].0,
            ),
{
    lemma_pairs_ascending(defined, executed, true);
    lemma_collect_ascending(pairs_to_apply(defined, executed, true));
}

// ---------------------------------------------------------------------------
// Applying up to a key, reverting down to a key
// ---------------------------------------------------------------------------

/// A copy of a migration to apply.
fn copy_applicable(m: &ApplicableMigration) -> (c: ApplicableMigration)
    ensures
        c@ == m@,
{
    ApplicableMigration {
        key: m.key,
        kind: m.kind,
        script_content: m.script_content.clone(),
        checksum: m.checksum,
    }
}

/// The key is at most `max`.
pub open spec fn not_after(k: KeyCode, max: Option<MigrationKey>) -> bool {
    match max {
        None => true,
        Some(m) => !code_lt(m.code(), k),
    }
}

/// The key is after `min`.
pub open spec fn after(k: KeyCode, min: Option<MigrationKey>) -> bool {
    match min {
        None => true,
        Some(m) => code_lt(m.code(), k),
    }
}

/// The migrations to apply, in their order, whose key is at most `max_key`.
pub open spec fn entries_up_to(
    entries: Seq<(KeyCode, ApplicableMigrationView)>,
    max_key: Option<MigrationKey>,
) -> Seq<ApplicableMigrationView>
    decreases entries.len(),
{
    if entries.len() == 0 {
        Seq::empty()
    } else {
        let rest = entries_up_to(entries.drop_last(), max_key);
        if not_after(entries.last().0, max_key) {
            rest.push(entries.last().1)
        } else {
            rest
        }
    }
}

/// The migrations to apply whose key is after `min_key`, in reverse order.
pub open spec fn entries_down_to(
    entries: Seq<(KeyCode, ApplicableMigrationView)>,
    min_key: Option<MigrationKey>,
) -> Seq<ApplicableMigrationView>
    decreases entries.len(),
{
    if entries.len() == 0 {
        Seq::empty()
    } else {
        let rest = entries_down_to(entries.drop_last(), min_key);
        if after(entries.last().0, min_key) {
            seq![entries.last().1] + rest
        } else {
            rest
        }
    }
}

pub open spec fn applicable_views(v: Seq<ApplicableMigration>) -> Seq<ApplicableMigrationView> {
    v.map_values(|m: ApplicableMigration| m@)
}

impl MigrationRunner {
    /// The migrations to apply when migrating up to `max_key` (inclusive),
    /// in their order; all where no key is given.
    pub fn migrations_up_to(
        to_apply: &IndexMap<KeyCode, ApplicableMigration>,
        max_key: Option<MigrationKey>,
    ) -> (migrations: Vec<ApplicableMigration>)
        ensures
            applicable_views(migrations@) == entries_up_to(applicable_entries(*to_apply), max_key),
    {
        let ghost entries = applicable_entries(*to_apply);
        let n = applicable_len(to_apply);
        let mut migrations: Vec<ApplicableMigration> = Vec::new();
        let mut i: usize = 0;
        assert(entries.take(0) =~= Seq::<(KeyCode, ApplicableMigrationView)>::empty());
        while i < n
            invariant
                entries == applicable_entries(*to_apply),
                n == entries.len(),
                i <= n,
                applicable_views(migrations@) == entries_up_to(entries.take(i as int), max_key),
            decreases n - i,
        {
            let (k, m) = applicable_at(to_apply, i).unwrap();
            assert(entries.take(i + 1).drop_last() =~= entries.take(i as int));
            let admitted = match max_key {
                None => true,
                Some(max) => !crate::key::code_before(&max.key_code(), k),
            };
            if admitted {
                let ghost before = migrations@;
                migrations.push(copy_applicable(m));
                assert(applicable_views(migrations@) =~= applicable_views(before).push(m@));
            }
            i += 1;
        }
        assert(entries.take(n as int) =~= entries);
        migrations
    }

    /// The migrations to apply when reverting down to `min_key` (exclusive):
    /// those after it, latest first; all where no key is given.
    pub fn reversions_down_to(
        to_apply: &IndexMap<KeyCode, ApplicableMigration>,
        min_key: Option<MigrationKey>,
    ) -> (migrations: Vec<ApplicableMigration>)
        ensures
            applicable_views(migrations@) == entries_down_to(applicable_entries(*to_apply), min_key),
    {
        let ghost entries = applicable_entries(*to_apply);
        let n = applicable_len(to_apply);
        let mut migrations: Vec<ApplicableMigration> = Vec::new();
        let mut i: usize = 0;
        assert(entries.take(0) =~= Seq::<(KeyCode, ApplicableMigrationView)>::empty());
        while i < n
            invariant
                entries == applicable_entries(*to_apply),
                n == entries.len(),
                i <= n,
                applicable_views(migrations@) == entries_down_to(entries.take(i as int), min_key),
            decreases n - i,
        {
            let (k, m) = applicable_at(to_apply, i).unwrap();
            assert(entries.take(i + 1).drop_last() =~= entries.take(i as int));
            let admitted = match min_key {
                None => true,
                Some(min) => crate::key::code_before(&min.key_code(), k),
            };
            if admitted {
                let ghost before = migrations@;
                migrations.insert(0, copy_applicable(m));
                assert(applicable_views(migrations@) =~= seq![m@] + applicable_views(before));
            }
            i += 1;
        }
        assert(entries.take(n as int) =~= entries);
        migrations
    }

    /// What migrating reports: no forward migration defined, nothing
    /// applied, or the key of the last migration applied.
    pub fn migrated(forward_migrations_found: bool, applied: &Vec<ApplicableMigration>) -> (r: Migrated)
        ensures
            !forward_migrations_found ==> r == Migrated::NoForwardMigrationsFound,
            forward_migrations_found && applied@.len() == 0 ==> r == Migrated::Nothing,
            forward_migrations_found && applied@.len() > 0 ==> r == Migrated::UpTo(
                applied@.last().key,
            ),
    {
        if !forward_migrations_found {
            Migrated::NoForwardMigrationsFound
        } else if applied.len() == 0 {
            Migrated::Nothing
        } else {
            Migrated::UpTo(applied[applied.len() - 1].key)
        }
    }

    /// What reverting reports: no backward migration defined, nothing
    /// reverted, reverted down to the key given, or completely.
    pub fn reverted(
        backward_migrations_found: bool,
        reverted: &Vec<ApplicableMigration>,
        min_key: Option<MigrationKey>,
    ) -> (r: Reverted)
        ensures
            !backward_migrations_found ==> r == Reverted::NoBackwardMigrationsFound,
            backward_migrations_found && reverted@.len() == 0 ==> r == Reverted::Nothing,
            backward_migrations_found && reverted@.len() > 0 ==> r == match min_key {
                Some(k) => Reverted::DownTo(k),
                None => Reverted::Completely,
            },
    {
        if !backward_migrations_found {
            Reverted::NoBackwardMigrationsFound
        } else if reverted.len() == 0 {
            Reverted::Nothing
        } else {
            match min_key {
                Some(k) => Reverted::DownTo(k),
                None => Reverted::Completely,
            }
        }
    }
}


/// The problems that verifying with `checks` finds: the migrations changed
/// after their execution where the checksums are checked, then those out of
/// order where the order is checked.
pub open spec fn verification_problems(
    checks: Checks,
    defined: Seq<ScriptContent>,
    executed: Seq<(KeyCode, ExecutionView)>,
) -> Seq<ProblematicMigrationView> {
    let verify = Verify { ignore_checksums: false, ignore_order: false };
    (if checks.checksum {
        changed_result(verify, defined, executed)
    } else {
        Seq::empty()
    }) + (if checks.order {
        out_of_order_result(verify, defined, executed)
    } else {
        Seq::empty()
    })
}

impl MigrationRunner {
    /// What verifying the defined forward migrations against their
    /// executions reports: that none is defined, that no problem was found,
    /// or the problems the checks find.
    pub fn verification(
        checks: Checks,
        script_contents: &[ScriptContent],
        executed_migrations: &IndexMap<KeyCode, Execution>,
    ) -> (r: Verified)
        ensures
            script_contents@.len() == 0 ==> r == Verified::NoMigrationsFound,
            script_contents@.len() > 0 ==> match r {
                Verified::NoMigrationsFound => false,
                Verified::NoProblemsFound => verification_problems(
                    checks,
                    script_contents@,
                    execution_entries(*executed_migrations),
                ).len() == 0,
                Verified::FoundProblems(problems) => {
                    &&& problems@.len() > 0
                    &&& problem_views(problems@) == verification_problems(
                        checks,
                        script_contents@,
                        execution_entries(*executed_migrations),
                    )
                },
            },
    {
        if script_contents.len() == 0 {
            return Verified::NoMigrationsFound;
        }
        let verify = Verify { ignore_checksums: false, ignore_order: false };
        let mut problems: Vec<ProblematicMigration> = if checks.checksum {
            verify.list_changed_after_execution(script_contents, executed_migrations)
        } else {
            Vec::new()
        };
        let ghost first = problems@;
        let mut out_of_order: Vec<ProblematicMigration> = if checks.order {
            verify.list_out_of_order(script_contents, executed_migrations)
        } else {
            Vec::new()
        };
        let ghost second = out_of_order@;
        problems.append(&mut out_of_order);
        assert(problem_views(problems@) =~= problem_views(first) + problem_views(second));
        if problems.len() == 0 {
            Verified::NoProblemsFound
        } else {
            Verified::FoundProblems(problems)
        }
    }
}


/// The migrations of the kinds the criteria admit, in their order.
pub open spec fn admitted_only(entries: Seq<Migration>, criteria: KindCriteria) -> Seq<Migration>
    decreases entries.len(),
{
    if entries.len() == 0 {
        Seq::empty()
    } else if criteria.admits(entries.last().kind) {
        admitted_only(entries.drop_last(), criteria).push(entries.last())
    } else {
        admitted_only(entries.drop_last(), criteria)
    }
}

impl MigrationRunner {
    /// The migrations of the scanned entries of the kinds the criteria admit,
    /// sorted by key; the first entry that is an error fails it.
    pub fn defined_migrations(entries: Vec<Result<Migration, Error>>, criteria: KindCriteria) -> (r:
        Result<Vec<Migration>, Error>)
        ensures
            match r {
                Ok(sorted) => {
                    &&& first_error(entries@) is None
                    &&& sorted_by_key(sorted@)
                    &&& sorted@.to_multiset() == admitted_only(migrations_of(entries@), criteria).to_multiset()
                },
                Err(e) => first_error(entries@) == Some(e),
            },
    {
        let ghost all = entries@;
        let mut sorted: Vec<Migration> = Vec::new();
        assert(all.take(0) =~= Seq::<Result<Migration, Error>>::empty());
        for entry in it: entries.into_iter()
            invariant
                it.seq() == all,
                first_error(all.take(it.index() as int)) is None,
                sorted_by_key(sorted@),
                sorted@.to_multiset() == admitted_only(migrations_of(all.take(it.index() as int)), criteria).to_multiset(),
        {
            let ghost i = it.index() as int;
            assert(all.take(i + 1).drop_last() =~= all.take(i));
            match entry {
                Err(e) => {
                    proof {
                        lemma_first_error_stays(all, i + 1);
                    }
                    return Err(e);
                },
                Ok(migration) => {
                    let ghost m = migration;
                    let ghost before = migrations_of(all.take(i));
                    assert(migrations_of(all.take(i + 1)) == before.push(m));
                    assert(before.push(m).drop_last() =~= before);
                    if criteria.matches(migration.kind) {
                        insert_sorted(&mut sorted, migration);
                        assert(admitted_only(before.push(m), criteria) == admitted_only(before, criteria).push(m));
                    } else {
                        assert(admitted_only(before.push(m), criteria) == admitted_only(before, criteria));
                    }
                },
            }
        }
        assert(all.take(all.len() as int) =~= all);
        Ok(sorted)
    }
}


/// The forward migrations are the migrations of the kinds that the criteria
/// for forward migrations admit.
pub proof fn law_forward_migrations_are_the_forward_kinds(entries: Seq<Migration>)
    ensures
        forward_only(entries) == admitted_only(entries, KindCriteria::Forward),
    decreases entries.len(),
{
    if entries.len() > 0 {
        law_forward_migrations_are_the_forward_kinds(entries.drop_last());
    }
}

/// A runner that ignores no check plans a migration exactly when verifying
/// with all checks finds no problem.
pub proof fn law_migration_planned_iff_verified(
    defined: Seq<ScriptContent>,
    executed: Seq<(KeyCode, ExecutionView)>,
)
    ensures
        ({
            let verify = Verify { ignore_checksums: false, ignore_order: false };
            verification_problems(Checks { checksum: true, order: true }, defined, executed).len()
                == 0 <==> (changed_result(verify, defined, executed).len() == 0
                && out_of_order_result(verify, defined, executed).len() == 0)
        }),
{
}


/// Migrating up to `max_key` applies, in their order, exactly the migrations
/// to apply whose key is not after `max_key` (all of them without a key); in
/// particular the migration whose key is `max_key` is applied.
pub proof fn law_migrating_up_to_includes_the_key(
    entries: Seq<(KeyCode, ApplicableMigrationView)>,
    max_key: Option<MigrationKey>,
)
    ensures
        entries_up_to(entries, max_key) == entries.filter_map(
            |e: (KeyCode, ApplicableMigrationView)|
                if max_key is None || !code_lt(max_key->0.code(), e.0) {
                    Some(e.1)
                } else {
                    None
                },
        ),
        forall|i: int|
            0 <= i < entries.len() && (max_key is None || !code_lt(max_key->0.code(), entries[i].0))
                ==> entries_up_to(entries, max_key).contains(#[trigger] entries[i].1),
        forall|i: int|
            0 <= i < entries.len() && max_key is Some && entries[i].0 == max_key->0.code()
                ==> entries_up_to(entries, max_key).contains(#[trigger] entries[i].1),
    decreases entries.len(),
{
    if entries.len() > 0 {
        let rest = entries.drop_last();
        law_migrating_up_to_includes_the_key(rest, max_key);
        let r = entries_up_to(rest, max_key);
        let n = entries.len() - 1;
        assert forall|i: int|
            0 <= i < entries.len() && (max_key is None || !code_lt(max_key->0.code(), entries[i].0))
                implies entries_up_to(entries, max_key).contains(#[trigger] entries[i].1) by {
            if i < n {
                assert(entries[i] == rest[i]);
                assert(r.contains(rest[i].1));
                let j = choose|j: int| 0 <= j < r.len() && r[j] == rest[i].1;
                if not_after(entries.last().0, max_key) {
                    assert(r.push(entries.last().1)[j] == rest[i].1);
                }
            } else {
                assert(entries_up_to(entries, max_key).last() == entries[i].1);
            }
        }
    }
}

/// Reverting down to `min_key` reverts, latest first, exactly the migrations
/// to apply whose key is after `min_key` (all of them without a key): the
/// migration whose key is `min_key` stays applied.
pub proof fn law_reverting_down_to_keeps_the_key(
    entries: Seq<(KeyCode, ApplicableMigrationView)>,
    min_key: Option<MigrationKey>,
)
    ensures
        ({
            let picked = entries.filter_map(
                |e: (KeyCode, ApplicableMigrationView)|
                    if min_key is None || code_lt(min_key->0.code(), e.0) {
                        Some(e.1)
                    } else {
                        None
                    },
            );
            &&& entries_down_to(entries, min_key).len() == picked.len()
            &&& forall|j: int|
                0 <= j < picked.len() ==> #[trigger] entries_down_to(entries, min_key)[j] == picked[picked.len() - 1 - j]
        }),
        forall|i: int|
            0 <= i < entries.len() && (min_key is None || code_lt(min_key->0.code(), entries[i].0))
                ==> entries_down_to(entries, min_key).contains(#[trigger] entries[i].1),
        forall|j: int|
            #![trigger entries_down_to(entries, min_key)[j]]
            0 <= j < entries_down_to(entries, min_key).len() ==> exists|i: int|
                0 <= i < entries.len() && (#[trigger] entries[i]).1 == entries_down_to(entries, min_key)[j]
                    && (min_key is None || code_lt(min_key->0.code(), entries[i].0)),
    decreases entries.len(),
{
    if entries.len() > 0 {
        let rest = entries.drop_last();
        law_reverting_down_to_keeps_the_key(rest, min_key);
        let r = entries_down_to(rest, min_key);
        let n = entries.len() - 1;
        let d = entries_down_to(entries, min_key);
        assert forall|i: int|
            0 <= i < entries.len() && (min_key is None || code_lt(min_key->0.code(), entries[i].0))
                implies d.contains(#[trigger] entries[i].1) by {
            if i < n {
                assert(entries[i] == rest[i]);
                assert(r.contains(rest[i].1));
                let j = choose|j: int| 0 <= j < r.len() && r[j] == rest[i].1;
                if after(entries.last().0, min_key) {
                    assert(d[j + 1] == rest[i].1);
                }
            } else {
                assert(d[0] == entries[i].1);
            }
        }
        assert forall|j: int|
            #![trigger entries_down_to(entries, min_key)[j]]
            0 <= j < entries_down_to(entries, min_key).len() implies exists|i: int|
                0 <= i < entries.len() && (#[trigger] entries[i]).1 == entries_down_to(entries, min_key)[j]
                    && (min_key is None || code_lt(min_key->0.code(), entries[i].0)) by {
            if after(entries.last().0, min_key) {
                if j == 0 {
                    assert(entries[n].1 == d[j]);
                    assert(min_key is None || code_lt(min_key->0.code(), entries[n].0));
                    assert(0 <= n < entries.len() && (entries[n]).1 == entries_down_to(entries, min_key)[j]
                        && (min_key is None || code_lt(min_key->0.code(), entries[n].0)));
                } else {
                    assert(d[j] == r[j - 1]);
                    let i = choose|i: int|
                        0 <= i < rest.len() && (#[trigger] rest[i]).1 == r[j - 1]
                            && (min_key is None || code_lt(min_key->0.code(), rest[i].0));
                    assert(entries[i] == rest[i]);
                }
            } else {
                let i = choose|i: int|
                    0 <= i < rest.len() && (#[trigger] rest[i]).1 == r[j]
                        && (min_key is None || code_lt(min_key->0.code(), rest[i].0));
                assert(entries[i] == rest[i]);
            }
        }
    }
}

} // verus!
