//! Listing migrations: which are listed, in which order, under which title.
use crate::key::{code_lt, lemma_code_lt_total, lemma_code_lt_transitive, KeyCode};
use crate::keyed::{execution_entries, get_execution, has_key, index_of_key};
use crate::migration::{Execution, ExecutionTime, ExecutionView, Migration, MigrationKind, Timestamp};
use indexmap::IndexMap;
use std::cmp::Ordering;
use vstd::prelude::*;

verus! {

broadcast use vstd::seq_lib::group_to_multiset_ensures;

/// The place of a kind in listings: baselines first, then forward, then
/// backward migrations.
pub open spec fn kind_rank(kind: MigrationKind) -> int {
    match kind {
        MigrationKind::Baseline => 0,
        MigrationKind::Up => 1,
        MigrationKind::Down => 2,
    }
}

/// Orders kinds of migrations for listings: baselines before forward before
/// backward migrations.
pub fn display_ordering(mig1: MigrationKind, mig2: MigrationKind) -> (order: Ordering)
    ensures
        order == Ordering::Less <==> kind_rank(mig1) < kind_rank(mig2),
        order == Ordering::Equal <==> kind_rank(mig1) == kind_rank(mig2),
        order == Ordering::Greater <==> kind_rank(mig1) > kind_rank(mig2),
{
    match (mig1, mig2) {
        (MigrationKind::Baseline, MigrationKind::Baseline)
        | (MigrationKind::Up, MigrationKind::Up)
        | (MigrationKind::Down, MigrationKind::Down) => Ordering::Equal,
        (MigrationKind::Baseline, _) | (_, MigrationKind::Down) => Ordering::Less,
        (_, MigrationKind::Baseline) | (MigrationKind::Down, _) => Ordering::Greater,
    }
}

/// The kinds of migrations a listing shows.
#[derive(Debug, Clone, Copy, PartialEq, Eq, Structural)]
pub enum KindCriteria {
    Forward,
    Backward,
    Any,
}

impl KindCriteria {
    /// The kinds the options `--up` and `--down` ask for: backward ones for
    /// `--down` alone, all for both, forward ones otherwise.
    pub fn for_options(up: bool, down: bool) -> (criteria: KindCriteria)
        ensures
            !down ==> criteria == KindCriteria::Forward,
            !up && down ==> criteria == KindCriteria::Backward,
            up && down ==> criteria == KindCriteria::Any,
    {
        if !down {
            KindCriteria::Forward
        } else if !up {
            KindCriteria::Backward
        } else {
            KindCriteria::Any
        }
    }

    pub open spec fn admits(self, kind: MigrationKind) -> bool {
        match self {
            KindCriteria::Forward => kind != MigrationKind::Down,
            KindCriteria::Backward => kind == MigrationKind::Down,
            KindCriteria::Any => true,
        }
    }

    pub fn matches(&self, kind: MigrationKind) -> (b: bool)
        ensures
            b == self.admits(kind),
    {
        match self {
            KindCriteria::Forward => kind.is_forward(),
            KindCriteria::Backward => kind.is_backward(),
            KindCriteria::Any => kind.is_any(),
        }
    }
}

/// Whether a listing shows a migration: a migration counts as applied when
/// it is forward and executed or backward and not executed; with `--open`
/// only those not applied, with `--applied` only applied ones, with both or
/// neither all.
pub open spec fn is_listed(open: bool, applied: bool, forward: bool, executed: bool) -> bool {
    let is_applied = forward == executed;
    open == applied || applied && is_applied || open && !is_applied
}

/// The title of a listing for the options `--open`, `--applied`, `--up` and
/// `--down`.
pub open spec fn listing_title_text(open: bool, applied: bool, up: bool, down: bool) -> Seq<char> {
    if !up && down && open == applied {
        "\nList of backward migrations:"@
    } else if !up && down && applied {
        "\nList of applied backward migrations:"@
    } else if !up && down && open {
        "\nList of open backward migrations:"@
    } else if applied && !open {
        "\nList of applied migrations:"@
    } else if open && !applied {
        "\nList of open migrations:"@
    } else {
        "\nList of migrations:"@
    }
}

pub fn listing_title(open: bool, applied: bool, up: bool, down: bool) -> (title: &'static str)
    ensures
        title@ == listing_title_text(open, applied, up, down),
{
    if !up && down && open == applied {
        "\nList of backward migrations:"
    } else if !up && down && applied {
        "\nList of applied backward migrations:"
    } else if !up && down && open {
        "\nList of open backward migrations:"
    } else if applied && !open {
        "\nList of applied migrations:"
    } else if open && !applied {
        "\nList of open migrations:"
    } else {
        "\nList of migrations:"
    }
}

/// A copy of an execution.
fn copy_execution(e: &Execution) -> (c: Execution)
    ensures
        c@ == e@,
{
    Execution {
        key: e.key,
        applied_rank: e.applied_rank,
        applied_by: e.applied_by.clone(),
        applied_at: Timestamp { seconds: e.applied_at.seconds, nanoseconds: e.applied_at.nanoseconds },
        checksum: e.checksum,
        execution_time: ExecutionTime {
            seconds: e.execution_time.seconds,
            nanoseconds: e.execution_time.nanoseconds,
        },
    }
}

/// An entry of a listing: a migration and its execution, if any.
pub type ListEntry = (Migration, Option<Execution>);

/// The order of a listing: by key, ascending or `descending`, and of equal
/// keys by kind.
pub open spec fn listed_before(a: Migration, b: Migration, descending: bool) -> bool {
    if a.key.code() == b.key.code() {
        kind_rank(a.kind) < kind_rank(b.kind)
    } else if descending {
        code_lt(b.key.code(), a.key.code())
    } else {
        code_lt(a.key.code(), b.key.code())
    }
}

/// No entry is listed before one that precedes it.
pub open spec fn listing_sorted(s: Seq<ListEntry>, descending: bool) -> bool {
    forall|i: int, j: int| 0 <= i < j < s.len() ==> !listed_before(s[j].0, s[i].0, descending)
}

proof fn lemma_listed_before_order(a: Migration, b: Migration, c: Migration, descending: bool)
    ensures
        !listed_before(a, a, descending),
        listed_before(a, b, descending) && listed_before(b, c, descending) ==> listed_before(
            a,
            c,
            descending,
        ),
        !listed_before(a, b, descending) && !listed_before(b, a, descending) ==> a.key.code()
            == b.key.code() && kind_rank(a.kind) == kind_rank(b.kind),
{
    lemma_code_lt_total(a.key.code(), b.key.code());
    lemma_code_lt_total(b.key.code(), c.key.code());
    lemma_code_lt_total(a.key.code(), c.key.code());
    if code_lt(a.key.code(), b.key.code()) && code_lt(b.key.code(), c.key.code()) {
        lemma_code_lt_transitive(a.key.code(), b.key.code(), c.key.code());
    }
    if code_lt(c.key.code(), b.key.code()) && code_lt(b.key.code(), a.key.code()) {
        lemma_code_lt_transitive(c.key.code(), b.key.code(), a.key.code());
    }
}

fn key_code_of(m: &Migration) -> (k: KeyCode)
    ensures
        k == m.key.code(),
{
    m.key.key_code()
}

/// `true` when `a` is listed before `b`.
fn is_listed_before(a: &Migration, b: &Migration, descending: bool) -> (r: bool)
    ensures
        r == listed_before(*a, *b, descending),
{
    let ka = key_code_of(a);
    let kb = key_code_of(b);
    if !crate::key::code_before(&ka, &kb) && !crate::key::code_before(&kb, &ka) {
        proof {
            lemma_code_lt_total(ka, kb);
        }
        let ra = match a.kind {
            MigrationKind::Baseline => 0u8,
            MigrationKind::Up => 1u8,
            MigrationKind::Down => 2u8,
        };
        let rb = match b.kind {
            MigrationKind::Baseline => 0u8,
            MigrationKind::Up => 1u8,
            MigrationKind::Down => 2u8,
        };
        ra < rb
    } else if descending {
        crate::key::code_before(&kb, &ka)
    } else {
        crate::key::code_before(&ka, &kb)
    }
}

/// Inserts an entry into a sorted listing, after the entries it is not
/// listed before.
fn insert_listed(sorted: &mut Vec<ListEntry>, entry: ListEntry, descending: bool)
    requires
        listing_sorted(old(sorted)@, descending),
    ensures
        listing_sorted(final(sorted)@, descending),
        final(sorted)@.to_multiset() == old(sorted)@.to_multiset().insert(entry),
{
    let mut pos: usize = 0;
    while pos < sorted.len() && !is_listed_before(&entry.0, &sorted[pos].0, descending)
        invariant
            pos <= sorted.len(),
            forall|i: int| 0 <= i < pos ==> !listed_before(entry.0, #[trigger] sorted@[i].0, descending),
        decreases sorted.len() - pos,
    {
        pos += 1;
    }
    let ghost before = sorted@;
    proof {
        vstd::seq_lib::to_multiset_insert(before, pos as int, entry);
    }
    sorted.insert(pos, entry);
    assert forall|i: int, j: int| 0 <= i < j < sorted@.len() implies !listed_before(
        sorted@[j].0,
        sorted@[i].0,
        descending,
    ) by {
        let x = entry.0;
        if i < pos && j == pos {
            assert(sorted@[i] == before[i]);
            lemma_listed_before_order(x, before[i].0, x, descending);
        } else if i == pos && j > pos {
            assert(sorted@[j] == before[j - 1]);
            let y = before[j - 1].0;
            if pos < sorted@.len() - 1 {
                let z = before[pos as int].0;
                assert(listed_before(x, z, descending));
                if j - 1 > pos {
                    assert(!listed_before(y, z, descending));
                }
                lemma_listed_before_order(y, x, z, descending);
                lemma_listed_before_order(x, z, y, descending);
                lemma_listed_before_order(y, z, x, descending);
                lemma_listed_before_order(z, y, x, descending);
            }
        } else if i < pos && j > pos {
            assert(sorted@[j] == before[j - 1]);
            assert(sorted@[i] == before[i]);
        } else if j < pos {
            assert(sorted@[j] == before[j]);
            assert(sorted@[i] == before[i]);
        } else {
            assert(sorted@[j] == before[j - 1]);
            assert(sorted@[i] == before[i - 1]);
        }
    }
}

/// The execution of a migration's key among the executions, if any.
pub open spec fn execution_of(executed: Seq<(KeyCode, ExecutionView)>, k: KeyCode) -> Option<ExecutionView> {
    if has_key(executed, k) {
        Some(executed[index_of_key(executed, k)].1)
    } else {
        None
    }
}

/// The entries a listing shows, before they are sorted: each migration the
/// options admit, with its execution.
pub open spec fn listed_entries(
    migrations: Seq<Migration>,
    executed: Seq<(KeyCode, ExecutionView)>,
    open: bool,
    applied: bool,
) -> Seq<(Migration, Option<ExecutionView>)>
    decreases migrations.len(),
{
    if migrations.len() == 0 {
        Seq::empty()
    } else {
        let rest = listed_entries(migrations.drop_last(), executed, open, applied);
        let m = migrations.last();
        if is_listed(open, applied, m.kind != MigrationKind::Down, has_key(executed, m.key.code())) {
            rest.push((m, execution_of(executed, m.key.code())))
        } else {
            rest
        }
    }
}

/// The entries of a listing, each execution by its view.
pub open spec fn entries_view(s: Seq<ListEntry>) -> Seq<(Migration, Option<ExecutionView>)> {
    s.map_values(
        |e: ListEntry|
            (
                e.0,
                match e.1 {
                    Some(x) => Some(x@),
                    None => None,
                },
            ),
    )
}

/// The listing of migrations: those the options `--open` and `--applied`
/// admit, each with its execution, sorted by key (descending where
/// `descending`) and of equal keys by kind.
pub fn list_entries(
    migrations: Vec<Migration>,
    executed_migrations: &IndexMap<KeyCode, Execution>,
    open: bool,
    applied: bool,
    descending: bool,
) -> (listing: Vec<ListEntry>)
    ensures
        listing_sorted(listing@, descending),
        exists|f: Seq<ListEntry>|
            entries_view(f) == listed_entries(
                migrations@,
                execution_entries(*executed_migrations),
                open,
                applied,
            ) && listing@.to_multiset() == f.to_multiset(),
{
    let ghost executed = execution_entries(*executed_migrations);
    let ghost all = migrations@;
    let mut filtered: Vec<ListEntry> = Vec::new();
    assert(all.take(0) =~= Seq::<Migration>::empty());
    assert(entries_view(filtered@) =~= Seq::<(Migration, Option<ExecutionView>)>::empty());
    for migration in it: migrations.into_iter()
        invariant
            it.seq() == all,
            executed == execution_entries(*executed_migrations),
            entries_view(filtered@) == listed_entries(all.take(it.index() as int), executed, open, applied),
    {
        let ghost i = it.index() as int;
        let ghost m = migration;
        assert(all.take(i + 1).drop_last() =~= all.take(i));
        assert(all.take(i + 1).last() == m);
        let k = migration.key.key_code();
        let execution = match get_execution(executed_migrations, &k) {
            Some(e) => Some(copy_execution(e)),
            None => None,
        };
        let is_applied = migration.kind.is_forward() == execution.is_some();
        if open == applied || applied && is_applied || open && !is_applied {
            let ghost before = filtered@;
            filtered.push((migration, execution));
            assert(entries_view(filtered@) =~= entries_view(before).push(
                (m, execution_of(executed, m.key.code())),
            ));
        }
    }
    assert(all.take(all.len() as int) =~= all);
    let ghost f = filtered@;
    let mut sorted: Vec<ListEntry> = Vec::new();
    assert(f.take(0) =~= Seq::<ListEntry>::empty());
    for entry in it: filtered.into_iter()
        invariant
            it.seq() == f,
            listing_sorted(sorted@, descending),
            sorted@.to_multiset() == f.take(it.index() as int).to_multiset(),
    {
        let ghost i = it.index() as int;
        assert(f.take(i + 1) =~= f.take(i).push(entry));
        insert_listed(&mut sorted, entry, descending);
    }
    assert(f.take(f.len() as int) =~= f);
    sorted
}


/// Every migration is listed without `--open` and `--applied`, and it is
/// listed either with `--open` or with `--applied`: the open and the applied
/// migrations split the listing of all.
pub proof fn law_open_and_applied_split_the_listing(
    migrations: Seq<Migration>,
    executed: Seq<(KeyCode, ExecutionView)>,
)
    ensures
        listed_entries(migrations, executed, false, false).len() == migrations.len(),
        listed_entries(migrations, executed, true, true).len() == migrations.len(),
        listed_entries(migrations, executed, true, false).len() + listed_entries(
            migrations,
            executed,
            false,
            true,
        ).len() == migrations.len(),
    decreases migrations.len(),
{
    if migrations.len() > 0 {
        law_open_and_applied_split_the_listing(migrations.drop_last(), executed);
    }
}


/// The order of a listing: keys ascend, or descend where `descending`, and of
/// entries with equal keys a baseline comes first and a backward migration
/// last, in both directions.
pub proof fn law_listing_order(s: Seq<ListEntry>, descending: bool)
    requires
        listing_sorted(s, descending),
    ensures
        forall|i: int, j: int|
            0 <= i < j < s.len() ==> {
                let a = (#[trigger] s[i]).0;
                let b = (#[trigger] s[j]).0;
                &&& descending ==> !code_lt(a.key.code(), b.key.code())
                &&& !descending ==> !code_lt(b.key.code(), a.key.code())
                &&& a.key.code() == b.key.code() ==> (b.kind == MigrationKind::Baseline ==> a.kind
                    == MigrationKind::Baseline)
                &&& a.key.code() == b.key.code() ==> (a.kind == MigrationKind::Down ==> b.kind
                    == MigrationKind::Down)
            },
{
    assert forall|i: int, j: int| 0 <= i < j < s.len() implies {
        let a = (#[trigger] s[i]).0;
        let b = (#[trigger] s[j]).0;
        &&& descending ==> !code_lt(a.key.code(), b.key.code())
        &&& !descending ==> !code_lt(b.key.code(), a.key.code())
        &&& a.key.code() == b.key.code() ==> (b.kind == MigrationKind::Baseline ==> a.kind
            == MigrationKind::Baseline)
        &&& a.key.code() == b.key.code() ==> (a.kind == MigrationKind::Down ==> b.kind
            == MigrationKind::Down)
    } by {
        let a = s[i].0;
        let b = s[j].0;
        assert(!listed_before(b, a, descending));
        lemma_code_lt_total(a.key.code(), b.key.code());
    }
}

} // verus!
