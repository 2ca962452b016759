//! Verifying defined migrations against executed ones, and choosing the
//! migrations to apply.
use crate::key::{code_lt, KeyCode, MigrationKey};
use crate::keyed::{
    applicable_entries, collect_entries, contains_execution, execution_at, execution_entries,
    executions_len, get_execution, has_key, index_of_key, insert_applicable, new_applicable,
};
use crate::migration::{
    ApplicableMigration, ApplicableMigrationView, Execution, ExecutionView, MigrationKind, Problem,
    ProblematicMigration, ProblematicMigrationView, ScriptContent,
};
use indexmap::IndexMap;
use vstd::prelude::*;

verus! {

/// A check that verifying applies.
#[derive(Debug, Clone, Copy, PartialEq, Eq, Structural)]
pub enum Check {
    Checksum,
    Order,
}

/// A set of checks.
#[derive(Debug, Clone, Copy, PartialEq, Eq, Structural)]
pub struct Checks {
    pub checksum: bool,
    pub order: bool,
}

impl Checks {
    /// `true` when the set holds the check.
    pub open spec fn has(self, check: Check) -> bool {
        match check {
            Check::Checksum => self.checksum,
            Check::Order => self.order,
        }
    }

    /// The checks of the set, in the order of their declaration.
    pub open spec fn elements(self) -> Seq<Check> {
        if self.checksum && self.order {
            seq![Check::Checksum, Check::Order]
        } else if self.checksum {
            seq![Check::Checksum]
        } else if self.order {
            seq![Check::Order]
        } else {
            Seq::empty()
        }
    }

    pub fn none() -> (checks: Checks)
        ensures
            forall|c: Check| !checks.has(c),
    {
        Checks { checksum: false, order: false }
    }

    pub fn all() -> (checks: Checks)
        ensures
            forall|c: Check| checks.has(c),
    {
        Checks { checksum: true, order: true }
    }

    pub fn only(check: Check) -> (checks: Checks)
        ensures
            forall|c: Check| checks.has(c) <==> c == check,
    {
        match check {
            Check::Checksum => Checks { checksum: true, order: false },
            Check::Order => Checks { checksum: false, order: true },
        }
    }

    pub fn contains(&self, check: Check) -> (b: bool)
        ensures
            b == self.has(check),
    {
        match check {
            Check::Checksum => self.checksum,
            Check::Order => self.order,
        }
    }

    /// The checks of the set, in the order of their declaration.
    pub fn iter(&self) -> (v: Vec<Check>)
        ensures
            v@ == self.elements(),
            forall|c: Check| v@.contains(c) <==> self.has(c),
    {
        let mut v: Vec<Check> = Vec::new();
        if self.checksum {
            v.push(Check::Checksum);
        }
        if self.order {
            v.push(Check::Order);
        }
        assert(v@ =~= self.elements());
        assert forall|c: Check| v@.contains(c) <==> self.has(c) by {
            if self.has(c) {
                match c {
                    Check::Checksum => assert(v@[0] == c),
                    Check::Order => assert(v@[v@.len() - 1] == c),
                }
            }
        }
        v
    }

    /// Adds a check to the set (`+=`).
    pub fn add_assign(&mut self, check: Check)
        ensures
            forall|c: Check| final(self).has(c) <==> (old(self).has(c) || c == check),
    {
        match check {
            Check::Checksum => self.checksum = true,
            Check::Order => self.order = true,
        }
    }
}

impl Check {
    /// The set of this check and another one (`+`).
    pub fn combine(self, other: Check) -> (checks: Checks)
        ensures
            forall|c: Check| checks.has(c) <==> (c == self || c == other),
    {
        let mut checks = Checks::only(self);
        checks.add_assign(other);
        checks
    }
}

impl From<Check> for Checks {
    fn from(check: Check) -> (checks: Checks) {
        match check {
            Check::Checksum => Checks { checksum: true, order: false },
            Check::Order => Checks { checksum: false, order: true },
        }
    }
}

impl vstd::std_specs::convert::FromSpecImpl<Check> for Checks {
    open spec fn obeys_from_spec() -> bool {
        true
    }

    open spec fn from_spec(check: Check) -> Checks {
        match check {
            Check::Checksum => Checks { checksum: true, order: false },
            Check::Order => Checks { checksum: false, order: true },
        }
    }
}

/// Settings of verifying: which checks are skipped.
#[derive(Debug, Clone, Copy, PartialEq, Eq, Structural)]
pub struct Verify {
    pub ignore_checksums: bool,
    pub ignore_order: bool,
}

impl Default for Verify {
    fn default() -> (verify: Verify)
        ensures
            !verify.ignore_checksums,
            !verify.ignore_order,
    {
        Verify { ignore_checksums: false, ignore_order: false }
    }
}

impl From<Checks> for Verify {
    fn from(checks: Checks) -> (verify: Verify) {
        Verify {
            ignore_checksums: !checks.contains(Check::Checksum),
            ignore_order: !checks.contains(Check::Order),
        }
    }
}

impl vstd::std_specs::convert::FromSpecImpl<Checks> for Verify {
    open spec fn obeys_from_spec() -> bool {
        true
    }

    open spec fn from_spec(checks: Checks) -> Verify {
        Verify {
            ignore_checksums: !checks.has(Check::Checksum),
            ignore_order: !checks.has(Check::Order),
        }
    }
}

impl Verify {
    pub fn with_ignore_checksums(self, ignore_checksums: bool) -> (verify: Verify)
        ensures
            verify.ignore_checksums == ignore_checksums,
            verify.ignore_order == self.ignore_order,
    {
        Verify { ignore_checksums, ..self }
    }

    pub fn ignore_checksums(&self) -> (b: bool)
        ensures
            b == self.ignore_checksums,
    {
        self.ignore_checksums
    }

    pub fn with_ignore_order(self, ignore_order: bool) -> (verify: Verify)
        ensures
            verify.ignore_order == ignore_order,
            verify.ignore_checksums == self.ignore_checksums,
    {
        Verify { ignore_order, ..self }
    }

    pub fn ignore_order(&self) -> (b: bool)
        ensures
            b == self.ignore_order,
    {
        self.ignore_order
    }
}

// ---------------------------------------------------------------------------
// What verifying and planning compute
// ---------------------------------------------------------------------------

/// The views of problematic migrations.
pub open spec fn problem_views(v: Seq<ProblematicMigration>) -> Seq<ProblematicMigrationView> {
    v.map_values(|p: ProblematicMigration| p@)
}

/// The latest key of the entries; of equal keys the later entry's.
pub open spec fn latest_key<V>(s: Seq<(KeyCode, V)>) -> KeyCode
    recommends
        s.len() > 0,
    decreases s.len(),
{
    if s.len() <= 1 {
        s[0].0
    } else {
        let m = latest_key(s.drop_last());
        if code_lt(s.last().0, m) {
            m
        } else {
            s.last().0
        }
    }
}

pub proof fn lemma_latest_key<V>(s: Seq<(KeyCode, V)>)
    requires
        s.len() > 0,
    ensures
        exists|i: int| 0 <= i < s.len() && s[i].0 == latest_key(s),
        forall|i: int| 0 <= i < s.len() ==> !code_lt(latest_key(s), #[trigger] s[i].0),
    decreases s.len(),
{
    if s.len() == 1 {
        assert(s[0].0 == latest_key(s));
        crate::key::lemma_code_lt_total(s[0].0, s[0].0);
    } else {
        let r = s.drop_last();
        lemma_latest_key(r);
        let m = latest_key(r);
        let i0 = choose|i: int| 0 <= i < r.len() && r[i].0 == m;
        assert(s[i0] == r[i0]);
        if latest_key(s) == m {
            assert(s[i0].0 == latest_key(s));
        } else {
            assert(s[s.len() - 1].0 == latest_key(s));
        }
        assert forall|i: int| 0 <= i < s.len() implies !code_lt(latest_key(s), #[trigger] s[i].0) by {
            if i < s.len() - 1 {
                assert(s[i] == r[i]);
                assert(!code_lt(m, r[i].0));
                crate::key::lemma_code_lt_total(latest_key(s), s[i].0);
                crate::key::lemma_code_lt_total(m, s[i].0);
                crate::key::lemma_code_lt_total(s.last().0, m);
                if code_lt(latest_key(s), s[i].0) && latest_key(s) != m {
                    crate::key::lemma_code_lt_transitive(m, s.last().0, s[i].0);
                }
            } else {
                crate::key::lemma_code_lt_total(latest_key(s), s[i].0);
            }
        }
    }
}

/// The problematic migration for a defined migration that is not applied
/// although a later one is.
pub open spec fn out_of_order_item(mig: ScriptContent, last: KeyCode) -> ProblematicMigrationView {
    ProblematicMigrationView {
        key: mig.key,
        kind: mig.kind,
        script_path: mig.path@,
        problem: Problem::OutOfOrder { last_applied_key: MigrationKey::from_code(last) },
    }
}

/// The defined migrations, in their order, that come before `last` and are
/// not executed.
pub open spec fn out_of_order_items(
    defined: Seq<ScriptContent>,
    executed: Seq<(KeyCode, ExecutionView)>,
    last: KeyCode,
) -> Seq<ProblematicMigrationView>
    decreases defined.len(),
{
    if defined.len() == 0 {
        Seq::empty()
    } else {
        let rest = out_of_order_items(defined.drop_last(), executed, last);
        let mig = defined.last();
        if code_lt(mig.key.code(), last) && !has_key(executed, mig.key.code()) {
            rest.push(out_of_order_item(mig, last))
        } else {
            rest
        }
    }
}

/// What listing the migrations out of order gives: nothing when the order
/// is not checked or nothing is executed; otherwise the defined migrations
/// that are not executed and come before the latest executed one.
pub open spec fn out_of_order_result(
    verify: Verify,
    defined: Seq<ScriptContent>,
    executed: Seq<(KeyCode, ExecutionView)>,
) -> Seq<ProblematicMigrationView> {
    if verify.ignore_order || executed.len() == 0 {
        Seq::empty()
    } else {
        out_of_order_items(defined, executed, latest_key(executed))
    }
}

/// The problematic migration for a forward migration whose checksum differs
/// from the one of its execution.
pub open spec fn changed_item(mig: ScriptContent, execution: ExecutionView) -> ProblematicMigrationView {
    ProblematicMigrationView {
        key: mig.key,
        kind: mig.kind,
        script_path: mig.path@,
        problem: Problem::ChecksumMismatch {
            definition_checksum: mig.checksum,
            execution_checksum: execution.checksum,
        },
    }
}

/// The forward migrations, in their order, that are executed with another
/// checksum than they have now.
pub open spec fn changed_items(
    defined: Seq<ScriptContent>,
    executed: Seq<(KeyCode, ExecutionView)>,
) -> Seq<ProblematicMigrationView>
    decreases defined.len(),
{
    if defined.len() == 0 {
        Seq::empty()
    } else {
        let rest = changed_items(defined.drop_last(), executed);
        let mig = defined.last();
        let k = mig.key.code();
        if mig.kind != MigrationKind::Down && has_key(executed, k) && executed[index_of_key(
            executed,
            k,
        )].1.checksum != mig.checksum {
            rest.push(changed_item(mig, executed[index_of_key(executed, k)].1))
        } else {
            rest
        }
    }
}

/// What listing the migrations changed after execution gives.
pub open spec fn changed_result(
    verify: Verify,
    defined: Seq<ScriptContent>,
    executed: Seq<(KeyCode, ExecutionView)>,
) -> Seq<ProblematicMigrationView> {
    if verify.ignore_checksums {
        Seq::empty()
    } else {
        changed_items(defined, executed)
    }
}

/// A defined migration as a migration to apply, keyed by its key.
pub open spec fn applicable_pair(mig: ScriptContent) -> (KeyCode, ApplicableMigrationView) {
    (
        mig.key.code(),
        ApplicableMigrationView {
            key: mig.key,
            kind: mig.kind,
            script_content: mig.content@,
            checksum: mig.checksum,
        },
    )
}

/// Whether an action applies a defined migration: migrating (`forward`) a
/// forward one not executed yet, reverting a backward one that is executed.
pub open spec fn is_selected(
    mig: ScriptContent,
    executed: Seq<(KeyCode, ExecutionView)>,
    forward: bool,
) -> bool {
    if forward {
        mig.kind != MigrationKind::Down && !has_key(executed, mig.key.code())
    } else {
        mig.kind == MigrationKind::Down && has_key(executed, mig.key.code())
    }
}

/// The defined migrations, in their order, that an action applies: for
/// migrating (`forward`) the forward ones not executed yet, for reverting
/// the backward ones whose key is executed.
pub open spec fn pairs_to_apply(
    defined: Seq<ScriptContent>,
    executed: Seq<(KeyCode, ExecutionView)>,
    forward: bool,
) -> Seq<(KeyCode, ApplicableMigrationView)>
    decreases defined.len(),
{
    if defined.len() == 0 {
        Seq::empty()
    } else {
        let rest = pairs_to_apply(defined.drop_last(), executed, forward);
        let mig = defined.last();
        if is_selected(mig, executed, forward) {
            rest.push(applicable_pair(mig))
        } else {
            rest
        }
    }
}

// ---------------------------------------------------------------------------
// The operations
// ---------------------------------------------------------------------------

/// Lists the defined migrations that are not applied although a later one is.
pub trait ListOutOfOrder {
    fn list_out_of_order(
        &self,
        defined_migrations: &[ScriptContent],
        executed_migrations: &IndexMap<KeyCode, Execution>,
    ) -> Vec<ProblematicMigration>;
}

/// Lists the applied migrations whose script changed after it was applied.
pub trait ListChangedAfterExecution {
    fn list_changed_after_execution(
        &self,
        defined_migrations: &[ScriptContent],
        executed_migrations: &IndexMap<KeyCode, Execution>,
    ) -> Vec<ProblematicMigration>;
}

/// Lists the applied migrations whose script changed after it was applied
/// (the same list as `ListChangedAfterExecution` gives).
pub trait ChangedMigrations {
    fn list_changed_migrations(
        &self,
        defined_migrations: &[ScriptContent],
        executed_migrations: &IndexMap<KeyCode, Execution>,
    ) -> Vec<ProblematicMigration>;
}

/// Lists the migrations that an action applies.
pub trait MigrationsToApply {
    fn list_migrations_to_apply(
        &self,
        defined_migrations: &[ScriptContent],
        executed_migrations: &IndexMap<KeyCode, Execution>,
    ) -> IndexMap<KeyCode, ApplicableMigration>;
}

/// The latest key among the executed migrations.
fn latest_executed_key(executed_migrations: &IndexMap<KeyCode, Execution>) -> (last: KeyCode)
    requires
        execution_entries(*executed_migrations).len() > 0,
    ensures
        last == latest_key(execution_entries(*executed_migrations)),
{
    let ghost entries = execution_entries(*executed_migrations);
    let n = executions_len(executed_migrations);
    let (k0, _) = execution_at(executed_migrations, 0).unwrap();
    let mut last: KeyCode = *k0;
    let mut i: usize = 1;
    assert(entries.take(1).drop_last() =~= entries.take(0));
    while i < n
        invariant
            entries == execution_entries(*executed_migrations),
            n == entries.len(),
            1 <= i <= n,
            last == latest_key(entries.take(i as int)),
        decreases n - i,
    {
        let (k, _) = execution_at(executed_migrations, i).unwrap();
        assert(entries.take(i + 1).drop_last() =~= entries.take(i as int));
        if !crate::key::code_before(k, &last) {
            last = *k;
        }
        i += 1;
    }
    assert(entries.take(n as int) =~= entries);
    last
}

impl ListOutOfOrder for Verify {
    fn list_out_of_order(
        &self,
        defined_migrations: &[ScriptContent],
        executed_migrations: &IndexMap<KeyCode, Execution>,
    ) -> (problematic: Vec<ProblematicMigration>)
        ensures
            problem_views(problematic@) == out_of_order_result(
                *self,
                defined_migrations@,
                execution_entries(*executed_migrations),
            ),
    {
        let ghost executed = execution_entries(*executed_migrations);
        let mut problematic: Vec<ProblematicMigration> = Vec::new();
        if self.ignore_order || executions_len(executed_migrations) == 0 {
            assert(problem_views(problematic@) =~= Seq::<ProblematicMigrationView>::empty());
            return problematic;
        }
        let last = latest_executed_key(executed_migrations);
        let mut i: usize = 0;
        while i < defined_migrations.len()
            invariant
                executed == execution_entries(*executed_migrations),
                i <= defined_migrations.len(),
                problem_views(problematic@) == out_of_order_items(
                    defined_migrations@.take(i as int),
                    executed,
                    last,
                ),
            decreases defined_migrations.len() - i,
        {
            let mig = &defined_migrations[i];
            let ghost before = problematic@;
            assert(defined_migrations@.take(i + 1).drop_last() =~= defined_migrations@.take(
                i as int,
            ));
            let k = mig.key.key_code();
            if crate::key::code_before(&k, &last) && !contains_execution(executed_migrations, &k) {
                let item = ProblematicMigration {
                    key: mig.key,
                    kind: mig.kind,
                    script_path: mig.path.clone(),
                    problem: Problem::OutOfOrder { last_applied_key: MigrationKey::of_code(&last) },
                };
                problematic.push(item);
                assert(problem_views(problematic@) =~= problem_views(before).push(item@));
            }
            i += 1;
        }
        assert(defined_migrations@.take(i as int) =~= defined_migrations@);
        problematic
    }
}

impl ListChangedAfterExecution for Verify {
    fn list_changed_after_execution(
        &self,
        defined_migrations: &[ScriptContent],
        executed_migrations: &IndexMap<KeyCode, Execution>,
    ) -> (problematic: Vec<ProblematicMigration>)
        ensures
            problem_views(problematic@) == changed_result(
                *self,
                defined_migrations@,
                execution_entries(*executed_migrations),
            ),
    {
        let ghost executed = execution_entries(*executed_migrations);
        let mut problematic: Vec<ProblematicMigration> = Vec::new();
        if self.ignore_checksums {
            assert(problem_views(problematic@) =~= Seq::<ProblematicMigrationView>::empty());
            return problematic;
        }
        let mut i: usize = 0;
        while i < defined_migrations.len()
            invariant
                executed == execution_entries(*executed_migrations),
                i <= defined_migrations.len(),
                problem_views(problematic@) == changed_items(
                    defined_migrations@.take(i as int),
                    executed,
                ),
            decreases defined_migrations.len() - i,
        {
            let mig = &defined_migrations[i];
            let ghost before = problematic@;
            assert(defined_migrations@.take(i + 1).drop_last() =~= defined_migrations@.take(
                i as int,
            ));
            if mig.kind.is_forward() {
                let k = mig.key.key_code();
                match get_execution(executed_migrations, &k) {
                    Some(execution) => {
                        if execution.checksum != mig.checksum {
                            let item = ProblematicMigration {
                                key: mig.key,
                                kind: mig.kind,
                                script_path: mig.path.clone(),
                                problem: Problem::ChecksumMismatch {
                                    definition_checksum: mig.checksum,
                                    execution_checksum: execution.checksum,
                                },
                            };
                            problematic.push(item);
                            assert(problem_views(problematic@) =~= problem_views(before).push(
                                item@,
                            ));
                        }
                    },
                    None => {},
                }
            }
            i += 1;
        }
        assert(defined_migrations@.take(i as int) =~= defined_migrations@);
        problematic
    }
}

impl ChangedMigrations for Verify {
    fn list_changed_migrations(
        &self,
        defined_migrations: &[ScriptContent],
        executed_migrations: &IndexMap<KeyCode, Execution>,
    ) -> (problematic: Vec<ProblematicMigration>)
        ensures
            problem_views(problematic@) == changed_result(
                *self,
                defined_migrations@,
                execution_entries(*executed_migrations),
            ),
    {
        self.list_changed_after_execution(defined_migrations, executed_migrations)
    }
}

/// The action of migrating: applying the forward migrations not applied yet.
#[derive(Default, Debug, Clone, Copy, PartialEq, Eq)]
pub struct Migrate {
    _seal: (),
}

/// The action of reverting: applying the backward migrations of applied ones.
#[derive(Default, Debug, Clone, Copy, PartialEq, Eq)]
pub struct Revert {
    _seal: (),
}

impl Migrate {
    pub fn new() -> (migrate: Migrate) {
        Migrate { _seal: () }
    }
}

impl Revert {
    pub fn new() -> (revert: Revert) {
        Revert { _seal: () }
    }
}

/// A defined migration as a migration to apply, keyed by its key.
fn to_applicable_migration(mig: &ScriptContent) -> (pair: (KeyCode, ApplicableMigration))
    ensures
        (pair.0, pair.1@) == applicable_pair(*mig),
{
    (
        mig.key.key_code(),
        ApplicableMigration {
            key: mig.key,
            kind: mig.kind,
            script_content: mig.content.clone(),
            checksum: mig.checksum,
        },
    )
}

/// The map of the migrations that migrating (`forward`) or reverting applies.
fn collect_applicable(
    defined_migrations: &[ScriptContent],
    executed_migrations: &IndexMap<KeyCode, Execution>,
    forward: bool,
) -> (map: IndexMap<KeyCode, ApplicableMigration>)
    ensures
        applicable_entries(map) == collect_entries(
            pairs_to_apply(defined_migrations@, execution_entries(*executed_migrations), forward),
        ),
{
    let ghost executed = execution_entries(*executed_migrations);
    let mut map = new_applicable();
    let mut i: usize = 0;
    while i < defined_migrations.len()
        invariant
            executed == execution_entries(*executed_migrations),
            i <= defined_migrations.len(),
            applicable_entries(map) == collect_entries(
                pairs_to_apply(defined_migrations@.take(i as int), executed, forward),
            ),
        decreases defined_migrations.len() - i,
    {
        let mig = &defined_migrations[i];
        let ghost d = defined_migrations@.take(i + 1);
        assert(d.drop_last() =~= defined_migrations@.take(i as int));
        let ghost before = pairs_to_apply(d.drop_last(), executed, forward);
        let k = mig.key.key_code();
        let executed_now = contains_execution(executed_migrations, &k);
        let selected = if forward {
            mig.kind.is_forward() && !executed_now
        } else {
            mig.kind.is_backward() && executed_now
        };
        if selected {
            let (key, applicable) = to_applicable_migration(mig);
            insert_applicable(&mut map, key, applicable);
            assert(before.push(applicable_pair(*mig)).drop_last() =~= before);
        }
        i += 1;
    }
    assert(defined_migrations@.take(i as int) =~= defined_migrations@);
    map
}

impl MigrationsToApply for Migrate {
    fn list_migrations_to_apply(
        &self,
        defined_migrations: &[ScriptContent],
        executed_migrations: &IndexMap<KeyCode, Execution>,
    ) -> (map: IndexMap<KeyCode, ApplicableMigration>)
        ensures
            applicable_entries(map) == collect_entries(
                pairs_to_apply(defined_migrations@, execution_entries(*executed_migrations), true),
            ),
    {
        collect_applicable(defined_migrations, executed_migrations, true)
    }
}

impl MigrationsToApply for Revert {
    fn list_migrations_to_apply(
        &self,
        defined_migrations: &[ScriptContent],
        executed_migrations: &IndexMap<KeyCode, Execution>,
    ) -> (map: IndexMap<KeyCode, ApplicableMigration>)
        ensures
            applicable_entries(map) == collect_entries(
                pairs_to_apply(defined_migrations@, execution_entries(*executed_migrations), false),
            ),
    {
        collect_applicable(defined_migrations, executed_migrations, false)
    }
}

// ---------------------------------------------------------------------------
// Laws
// ---------------------------------------------------------------------------

proof fn lemma_no_out_of_order_items(
    defined: Seq<ScriptContent>,
    executed: Seq<(KeyCode, ExecutionView)>,
    last: KeyCode,
)
    requires
        out_of_order_items(defined, executed, last).len() == 0,
    ensures
        forall|i: int|
            0 <= i < defined.len() ==> !(code_lt(#[trigger] defined[i].key.code(), last)
                && !has_key(executed, defined[i].key.code())),
    decreases defined.len(),
{
    if defined.len() > 0 {
        let r = defined.drop_last();
        lemma_no_out_of_order_items(r, executed, last);
        assert forall|i: int| 0 <= i < defined.len() implies !(code_lt(
            #[trigger] defined[i].key.code(),
            last,
        ) && !has_key(executed, defined[i].key.code())) by {
            if i < defined.len() - 1 {
                assert(defined[i] == r[i]);
            }
        }
    }
}

/// The pair is the one of a defined migration that the action applies.
pub open spec fn comes_from_selected(
    defined: Seq<ScriptContent>,
    executed: Seq<(KeyCode, ExecutionView)>,
    forward: bool,
    pair: (KeyCode, ApplicableMigrationView),
) -> bool {
    exists|j: int|
        0 <= j < defined.len() && pair == applicable_pair(defined[j]) && is_selected(
            #[trigger] defined[j],
            executed,
            forward,
        )
}

pub proof fn lemma_pairs_to_apply(
    defined: Seq<ScriptContent>,
    executed: Seq<(KeyCode, ExecutionView)>,
    forward: bool,
)
    ensures
        forall|i: int|
            0 <= i < pairs_to_apply(defined, executed, forward).len() ==> comes_from_selected(
                defined,
                executed,
                forward,
                #[trigger] pairs_to_apply(defined, executed, forward)[i],
            ),
    decreases defined.len(),
{
    if defined.len() > 0 {
        let r = defined.drop_last();
        lemma_pairs_to_apply(r, executed, forward);
        assert forall|i: int|
            0 <= i < pairs_to_apply(defined, executed, forward).len() implies comes_from_selected(
                defined,
                executed,
                forward,
                #[trigger] pairs_to_apply(defined, executed, forward)[i],
            ) by {
            let p = pairs_to_apply(defined, executed, forward);
            let pr = pairs_to_apply(r, executed, forward);
            if i < pr.len() {
                assert(p[i] == pr[i]);
                assert(comes_from_selected(r, executed, forward, pr[i]));
                let j = choose|j: int|
                    0 <= j < r.len() && pr[i] == applicable_pair(r[j]) && is_selected(
                        #[trigger] r[j],
                        executed,
                        forward,
                    );
                assert(defined[j] == r[j]);
            } else {
                let j = defined.len() - 1;
                assert(is_selected(defined[j], executed, forward));
                assert(p[i] == applicable_pair(defined[j]));
            }
        }
    }
}

/// Every key of a collected map is the key of one of the pairs it was
/// collected from, and no key occurs twice.
pub proof fn lemma_collected_keys<V>(pairs: Seq<(KeyCode, V)>)
    ensures
        crate::keyed::distinct_keys(collect_entries(pairs)),
        forall|i: int|
            0 <= i < collect_entries(pairs).len() ==> exists|j: int|
                0 <= j < pairs.len() && pairs[j].0 == #[trigger] collect_entries(pairs)[i].0,
{
    crate::keyed::lemma_collect_entries(pairs);
    assert forall|i: int| 0 <= i < collect_entries(pairs).len() implies exists|j: int|
        0 <= j < pairs.len() && pairs[j].0 == #[trigger] collect_entries(pairs)[i].0 by {
        let k = collect_entries(pairs)[i].0;
        crate::keyed::lemma_index_of_key(collect_entries(pairs), k);
        assert(has_key(collect_entries(pairs), k));
    }
}

/// When the order is checked and no defined migration is out of order, then
/// every migration that migrating applies comes after every executed one:
/// migrations are applied in the order of their keys.
pub proof fn law_migrations_apply_in_order(
    verify: Verify,
    defined: Seq<ScriptContent>,
    executed: Seq<(KeyCode, ExecutionView)>,
)
    requires
        !verify.ignore_order,
        out_of_order_result(verify, defined, executed).len() == 0,
    ensures
        forall|i: int, j: int|
            0 <= i < collect_entries(pairs_to_apply(defined, executed, true)).len() && 0 <= j
                < executed.len() ==> code_lt(
                #[trigger] executed[j].0,
                #[trigger] collect_entries(pairs_to_apply(defined, executed, true))[i].0,
            ),
{
    let pairs = pairs_to_apply(defined, executed, true);
    let applied = collect_entries(pairs);
    lemma_collected_keys(pairs);
    lemma_pairs_to_apply(defined, executed, true);
    if executed.len() > 0 {
        let last = latest_key(executed);
        lemma_latest_key(executed);
        lemma_no_out_of_order_items(defined, executed, last);
        let w = choose|w: int| 0 <= w < executed.len() && executed[w].0 == last;
        assert forall|i: int, j: int| 0 <= i < applied.len() && 0 <= j < executed.len() implies code_lt(
            #[trigger] executed[j].0,
            #[trigger] applied[i].0,
        ) by {
            let p = choose|p: int| 0 <= p < pairs.len() && pairs[p].0 == applied[i].0;
            assert(comes_from_selected(defined, executed, true, pairs[p]));
            let d = choose|d: int|
                0 <= d < defined.len() && pairs[p] == applicable_pair(defined[d]) && is_selected(
                    #[trigger] defined[d],
                    executed,
                    true,
                );
            let k = defined[d].key.code();
            assert(k == applied[i].0);
            assert(!code_lt(k, last));
            crate::keyed::lemma_index_of_key(executed, k);
            assert(k != last) by {
                if k == last {
                    assert(executed[w].0 == k);
                }
            }
            crate::key::lemma_code_lt_total(k, last);
            assert(!code_lt(last, executed[j].0));
            crate::key::lemma_code_lt_total(last, executed[j].0);
            if executed[j].0 != last {
                crate::key::lemma_code_lt_transitive(executed[j].0, last, k);
            }
        }
    }
}

/// Migrating applies only forward migrations whose key is not executed, and
/// reverting only backward migrations whose key is executed; neither applies
/// a key twice.
pub proof fn law_actions_choose_by_execution(
    defined: Seq<ScriptContent>,
    executed: Seq<(KeyCode, ExecutionView)>,
)
    ensures
        crate::keyed::distinct_keys(collect_entries(pairs_to_apply(defined, executed, true))),
        crate::keyed::distinct_keys(collect_entries(pairs_to_apply(defined, executed, false))),
        forall|i: int|
            0 <= i < collect_entries(pairs_to_apply(defined, executed, true)).len() ==> {
                let m = #[trigger] collect_entries(pairs_to_apply(defined, executed, true))[i];
                &&& !has_key(executed, m.0)
                &&& m.1.kind != MigrationKind::Down
            },
        forall|i: int|
            0 <= i < collect_entries(pairs_to_apply(defined, executed, false)).len() ==> {
                let m = #[trigger] collect_entries(pairs_to_apply(defined, executed, false))[i];
                &&& has_key(executed, m.0)
                &&& m.1.kind == MigrationKind::Down
            },
{
    lemma_collected_values(pairs_to_apply(defined, executed, true));
    lemma_collected_values(pairs_to_apply(defined, executed, false));
    lemma_pairs_to_apply(defined, executed, true);
    lemma_pairs_to_apply(defined, executed, false);
    lemma_collected_keys(pairs_to_apply(defined, executed, true));
    lemma_collected_keys(pairs_to_apply(defined, executed, false));
}

/// Every entry of a collected map is one of the pairs it was collected from.
proof fn lemma_collected_values<V>(pairs: Seq<(KeyCode, V)>)
    ensures
        forall|i: int|
            0 <= i < collect_entries(pairs).len() ==> exists|j: int|
                0 <= j < pairs.len() && pairs[j] == #[trigger] collect_entries(pairs)[i],
    decreases pairs.len(),
{
    if pairs.len() > 0 {
        let r = pairs.drop_last();
        lemma_collected_values(r);
        let c = collect_entries(r);
        crate::keyed::lemma_index_of_key(c, pairs.last().0);
        assert forall|i: int| 0 <= i < collect_entries(pairs).len() implies exists|j: int|
            0 <= j < pairs.len() && pairs[j] == #[trigger] collect_entries(pairs)[i] by {
            if collect_entries(pairs)[i] == pairs.last() {
                assert(pairs[pairs.len() - 1] == pairs.last());
            } else {
                assert(i < c.len() && collect_entries(pairs)[i] == c[i]);
                let j = choose|j: int| 0 <= j < r.len() && r[j] == #[trigger] c[i];
                assert(pairs[j] == r[j]);
            }
        }
    }
}

/// Each migration listed as changed is a forward migration that is executed
/// with another checksum than it has now.
pub proof fn law_changed_migrations_differ(
    verify: Verify,
    defined: Seq<ScriptContent>,
    executed: Seq<(KeyCode, ExecutionView)>,
)
    ensures
        forall|i: int|
            0 <= i < changed_result(verify, defined, executed).len() ==> {
                let p = #[trigger] changed_result(verify, defined, executed)[i];
                &&& p.kind != MigrationKind::Down
                &&& has_key(executed, p.key.code())
                &&& p.problem matches Problem::ChecksumMismatch {
                    definition_checksum,
                    execution_checksum,
                } && definition_checksum != execution_checksum && execution_checksum
                    == executed[index_of_key(executed, p.key.code())].1.checksum
            },
    decreases defined.len(),
{
    if !verify.ignore_checksums && defined.len() > 0 {
        law_changed_migrations_differ(verify, defined.drop_last(), executed);
    }
}

/// With the order checked, each migration listed as out of order is not
/// executed and comes before the latest executed migration, which its
/// problem names.
pub proof fn law_out_of_order_migrations_precede_latest(
    verify: Verify,
    defined: Seq<ScriptContent>,
    executed: Seq<(KeyCode, ExecutionView)>,
)
    ensures
        forall|i: int|
            0 <= i < out_of_order_result(verify, defined, executed).len() ==> {
                let p = #[trigger] out_of_order_result(verify, defined, executed)[i];
                &&& !has_key(executed, p.key.code())
                &&& p.problem == Problem::OutOfOrder {
                    last_applied_key: MigrationKey::from_code(latest_key(executed)),
                }
                &&& code_lt(p.key.code(), latest_key(executed))
            },
        verify.ignore_order || executed.len() == 0 ==> out_of_order_result(
            verify,
            defined,
            executed,
        ).len() == 0,
    decreases defined.len(),
{
    if !verify.ignore_order && executed.len() > 0 && defined.len() > 0 {
        law_out_of_order_migrations_precede_latest(verify, defined.drop_last(), executed);
    }
}


/// A selected defined migration is among the pairs that an action applies.
proof fn lemma_selected_is_applied(
    defined: Seq<ScriptContent>,
    executed: Seq<(KeyCode, ExecutionView)>,
    forward: bool,
    d: int,
)
    requires
        0 <= d < defined.len(),
        is_selected(defined[d], executed, forward),
    ensures
        exists|i: int|
            0 <= i < pairs_to_apply(defined, executed, forward).len()
                && #[trigger] pairs_to_apply(defined, executed, forward)[i].0 == defined[d].key.code(),
    decreases defined.len(),
{
    let rest = defined.drop_last();
    let pairs = pairs_to_apply(defined, executed, forward);
    if d == defined.len() - 1 {
        assert(pairs[pairs.len() - 1].0 == defined[d].key.code());
    } else {
        assert(rest[d] == defined[d]);
        lemma_selected_is_applied(rest, executed, forward, d);
        let i = choose|i: int|
            0 <= i < pairs_to_apply(rest, executed, forward).len()
                && #[trigger] pairs_to_apply(rest, executed, forward)[i].0 == rest[d].key.code();
        assert(pairs[i] == pairs_to_apply(rest, executed, forward)[i]);
    }
}

/// An action applies nothing where it selects no defined migration.
proof fn lemma_none_selected(
    defined: Seq<ScriptContent>,
    executed: Seq<(KeyCode, ExecutionView)>,
    forward: bool,
)
    requires
        forall|j: int| 0 <= j < defined.len() ==> !is_selected(#[trigger] defined[j], executed, forward),
    ensures
        pairs_to_apply(defined, executed, forward).len() == 0,
    decreases defined.len(),
{
    if defined.len() > 0 {
        let rest = defined.drop_last();
        assert forall|j: int| 0 <= j < rest.len() implies !is_selected(#[trigger] rest[j], executed, forward) by {
            assert(rest[j] == defined[j]);
        }
        lemma_none_selected(rest, executed, forward);
        assert(!is_selected(defined[defined.len() - 1], executed, forward));
    }
}

/// The key of a selected defined migration is a key of what the action applies.
proof fn lemma_selected_key_collected(
    defined: Seq<ScriptContent>,
    executed: Seq<(KeyCode, ExecutionView)>,
    forward: bool,
    d: int,
)
    requires
        0 <= d < defined.len(),
        is_selected(defined[d], executed, forward),
    ensures
        exists|i: int|
            0 <= i < collect_entries(pairs_to_apply(defined, executed, forward)).len()
                && #[trigger] collect_entries(pairs_to_apply(defined, executed, forward))[i].0
                == defined[d].key.code(),
{
    let pairs = pairs_to_apply(defined, executed, forward);
    let k = defined[d].key.code();
    lemma_selected_is_applied(defined, executed, forward, d);
    crate::keyed::lemma_collect_entries(pairs);
    assert(has_key(collect_entries(pairs), k));
    crate::keyed::lemma_index_of_key(collect_entries(pairs), k);
    let i = index_of_key(collect_entries(pairs), k);
    assert(collect_entries(pairs)[i].0 == k);
}

/// Once every migration that migrating applies is executed (and what was
/// executed stays so), migrating again applies nothing.
pub proof fn law_migrating_again_applies_nothing(
    defined: Seq<ScriptContent>,
    executed: Seq<(KeyCode, ExecutionView)>,
    executed_after: Seq<(KeyCode, ExecutionView)>,
)
    requires
        forall|k: KeyCode| has_key(executed, k) ==> #[trigger] has_key(executed_after, k),
        forall|i: int|
            0 <= i < collect_entries(pairs_to_apply(defined, executed, true)).len() ==> has_key(
                executed_after,
                #[trigger] collect_entries(pairs_to_apply(defined, executed, true))[i].0,
            ),
    ensures
        collect_entries(pairs_to_apply(defined, executed_after, true)).len() == 0,
{
    assert forall|j: int| 0 <= j < defined.len() implies !is_selected(
        #[trigger] defined[j],
        executed_after,
        true,
    ) by {
        if is_selected(defined[j], executed, true) {
            lemma_selected_key_collected(defined, executed, true, j);
        }
    }
    lemma_none_selected(defined, executed_after, true);
}

/// Once the executions of the migrations that reverting reverts are removed
/// (and nothing else is executed anew), reverting again reverts nothing.
pub proof fn law_reverting_again_reverts_nothing(
    defined: Seq<ScriptContent>,
    executed: Seq<(KeyCode, ExecutionView)>,
    executed_after: Seq<(KeyCode, ExecutionView)>,
)
    requires
        forall|k: KeyCode| #[trigger] has_key(executed_after, k) ==> has_key(executed, k),
        forall|i: int|
            0 <= i < collect_entries(pairs_to_apply(defined, executed, false)).len() ==> !has_key(
                executed_after,
                #[trigger] collect_entries(pairs_to_apply(defined, executed, false))[i].0,
            ),
    ensures
        collect_entries(pairs_to_apply(defined, executed_after, false)).len() == 0,
{
    assert forall|j: int| 0 <= j < defined.len() implies !is_selected(
        #[trigger] defined[j],
        executed_after,
        false,
    ) by {
        if is_selected(defined[j], executed_after, false) {
            assert(has_key(executed, defined[j].key.code()));
            lemma_selected_key_collected(defined, executed, false, j);
        }
    }
    lemma_none_selected(defined, executed_after, false);
}


/// With the checksums checked, listing the migrations changed after their
/// execution gives, in the order they are defined, a checksum mismatch for
/// every forward migration that is executed with another checksum than it
/// has now, and for no other.
pub proof fn law_every_changed_migration_is_listed(
    verify: Verify,
    defined: Seq<ScriptContent>,
    executed: Seq<(KeyCode, ExecutionView)>,
)
    requires
        !verify.ignore_checksums,
    ensures
        changed_result(verify, defined, executed) == defined.filter_map(
            |d: ScriptContent|
                if d.kind != MigrationKind::Down && has_key(executed, d.key.code())
                    && executed[index_of_key(executed, d.key.code())].1.checksum != d.checksum {
                    Some(
                        ProblematicMigrationView {
                            key: d.key,
                            kind: d.kind,
                            script_path: d.path@,
                            problem: Problem::ChecksumMismatch {
                                definition_checksum: d.checksum,
                                execution_checksum: executed[index_of_key(executed, d.key.code())].1.checksum,
                            },
                        },
                    )
                } else {
                    None
                },
        ),
        forall|i: int|
            0 <= i < defined.len() && (#[trigger] defined[i]).kind != MigrationKind::Down && has_key(
                executed,
                defined[i].key.code(),
            ) && executed[index_of_key(executed, defined[i].key.code())].1.checksum
                != defined[i].checksum ==> changed_result(verify, defined, executed).contains(
                ProblematicMigrationView {
                    key: defined[i].key,
                    kind: defined[i].kind,
                    script_path: defined[i].path@,
                    problem: Problem::ChecksumMismatch {
                        definition_checksum: defined[i].checksum,
                        execution_checksum: executed[index_of_key(executed, defined[i].key.code())].1.checksum,
                    },
                },
            ),
    decreases defined.len(),
{
    if defined.len() > 0 {
        let rest = defined.drop_last();
        law_every_changed_migration_is_listed(verify, rest, executed);
        let r = changed_result(verify, rest, executed);
        let c = changed_result(verify, defined, executed);
        let n = defined.len() - 1;
        assert forall|i: int|
            0 <= i < defined.len() && (#[trigger] defined[i]).kind != MigrationKind::Down && has_key(
                executed,
                defined[i].key.code(),
            ) && executed[index_of_key(executed, defined[i].key.code())].1.checksum
                != defined[i].checksum implies c.contains(
                ProblematicMigrationView {
                    key: defined[i].key,
                    kind: defined[i].kind,
                    script_path: defined[i].path@,
                    problem: Problem::ChecksumMismatch {
                        definition_checksum: defined[i].checksum,
                        execution_checksum: executed[index_of_key(executed, defined[i].key.code())].1.checksum,
                    },
                },
            ) by {
            let item = ProblematicMigrationView {
                key: defined[i].key,
                kind: defined[i].kind,
                script_path: defined[i].path@,
                problem: Problem::ChecksumMismatch {
                    definition_checksum: defined[i].checksum,
                    execution_checksum: executed[index_of_key(executed, defined[i].key.code())].1.checksum,
                },
            };
            if i < n {
                assert(rest[i] == defined[i]);
                assert(r.contains(item));
                let j = choose|j: int| 0 <= j < r.len() && r[j] == item;
                assert(c[j] == item);
            } else {
                assert(c.last() == item);
            }
        }
    }
}

/// With the order checked and something executed, listing the migrations
/// out of order gives, in the order they are defined, every defined
/// migration that is not executed and comes before the latest executed one,
/// and no other.
pub proof fn law_every_migration_out_of_order_is_listed(
    verify: Verify,
    defined: Seq<ScriptContent>,
    executed: Seq<(KeyCode, ExecutionView)>,
)
    requires
        !verify.ignore_order,
        executed.len() > 0,
    ensures
        out_of_order_result(verify, defined, executed) == defined.filter_map(
            |d: ScriptContent|
                if code_lt(d.key.code(), latest_key(executed)) && !has_key(executed, d.key.code()) {
                    Some(
                        ProblematicMigrationView {
                            key: d.key,
                            kind: d.kind,
                            script_path: d.path@,
                            problem: Problem::OutOfOrder {
                                last_applied_key: MigrationKey::from_code(latest_key(executed)),
                            },
                        },
                    )
                } else {
                    None
                },
        ),
    decreases defined.len(),
{
    if defined.len() > 0 {
        law_every_migration_out_of_order_is_listed(verify, defined.drop_last(), executed);
    }
}

/// Every defined migration that an action selects is applied: migrating
/// applies each forward migration whose key is not executed, reverting each
/// backward migration whose key is executed.
pub proof fn law_every_selected_migration_is_applied(
    defined: Seq<ScriptContent>,
    executed: Seq<(KeyCode, ExecutionView)>,
    forward: bool,
)
    ensures
        forall|d: int|
            0 <= d < defined.len() && (if forward {
                (#[trigger] defined[d]).kind != MigrationKind::Down && !has_key(executed, defined[d].key.code())
            } else {
                defined[d].kind == MigrationKind::Down && has_key(executed, defined[d].key.code())
            }) ==> exists|i: int|
                0 <= i < collect_entries(pairs_to_apply(defined, executed, forward)).len()
                    && #[trigger] collect_entries(pairs_to_apply(defined, executed, forward))[i].0
                    == defined[d].key.code(),
{
    assert forall|d: int|
        0 <= d < defined.len() && (if forward {
            (#[trigger] defined[d]).kind != MigrationKind::Down && !has_key(executed, defined[d].key.code())
        } else {
            defined[d].kind == MigrationKind::Down && has_key(executed, defined[d].key.code())
        }) implies exists|i: int|
            0 <= i < collect_entries(pairs_to_apply(defined, executed, forward)).len()
                && #[trigger] collect_entries(pairs_to_apply(defined, executed, forward))[i].0
                == defined[d].key.code() by {
        lemma_selected_key_collected(defined, executed, forward, d);
    }
}

} // verus!
