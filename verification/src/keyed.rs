//! Maps from migration keys to executions or applicable migrations, in the
//! order in which the keys were inserted (`indexmap::IndexMap`).
use crate::key::KeyCode;
use crate::migration::{ApplicableMigration, ApplicableMigrationView, Execution, ExecutionView};
use indexmap::IndexMap;
use vstd::prelude::*;

verus! {

#[verifier::external_type_specification]
#[verifier::external_body]
#[verifier::reject_recursive_types(K)]
#[verifier::reject_recursive_types(V)]
#[verifier::reject_recursive_types(S)]
pub struct ExIndexMap<K, V, S>(IndexMap<K, V, S>);

/// The position of the entry with key `k`, or -1 when there is none.
pub open spec fn index_of_key<V>(s: Seq<(KeyCode, V)>, k: KeyCode) -> int
    decreases s.len(),
{
    if s.len() == 0 {
        -1
    } else if s.last().0 == k {
        s.len() - 1
    } else {
        index_of_key(s.drop_last(), k)
    }
}

/// Some entry has the key `k`.
pub open spec fn has_key<V>(s: Seq<(KeyCode, V)>, k: KeyCode) -> bool {
    index_of_key(s, k) >= 0
}

/// No two entries have the same key.
pub open spec fn distinct_keys<V>(s: Seq<(KeyCode, V)>) -> bool {
    forall|i: int, j: int| 0 <= i < s.len() && 0 <= j < s.len() && i != j ==> s[i].0 != s[j].0
}

/// The entries after inserting `v` under `k`: an entry with that key keeps
/// its place and takes the new value; otherwise the entry goes last.
pub open spec fn insert_entry<V>(s: Seq<(KeyCode, V)>, k: KeyCode, v: V) -> Seq<(KeyCode, V)> {
    let i = index_of_key(s, k);
    if i >= 0 {
        s.update(i, (k, v))
    } else {
        s.push((k, v))
    }
}

/// The entries of a map filled by inserting the pairs in order.
pub open spec fn collect_entries<V>(pairs: Seq<(KeyCode, V)>) -> Seq<(KeyCode, V)>
    decreases pairs.len(),
{
    if pairs.len() == 0 {
        Seq::empty()
    } else {
        insert_entry(collect_entries(pairs.drop_last()), pairs.last().0, pairs.last().1)
    }
}

pub proof fn lemma_index_of_key<V>(s: Seq<(KeyCode, V)>, k: KeyCode)
    ensures
        -1 <= index_of_key(s, k) < s.len(),
        index_of_key(s, k) >= 0 ==> s[index_of_key(s, k)].0 == k,
        forall|j: int| index_of_key(s, k) < j < s.len() ==> s[j].0 != k,
        index_of_key(s, k) < 0 <==> forall|j: int| 0 <= j < s.len() ==> s[j].0 != k,
    decreases s.len(),
{
    if s.len() > 0 && s.last().0 != k {
        lemma_index_of_key(s.drop_last(), k);
        assert forall|j: int| index_of_key(s, k) < j < s.len() implies s[j].0 != k by {
            if j < s.len() - 1 {
                assert(s[j] == s.drop_last()[j]);
            }
        }
        if index_of_key(s, k) < 0 {
            assert forall|j: int| 0 <= j < s.len() implies s[j].0 != k by {
                if j < s.len() - 1 {
                    assert(s[j] == s.drop_last()[j]);
                }
            }
        }
    }
}

pub proof fn lemma_insert_entry<V>(s: Seq<(KeyCode, V)>, k: KeyCode, v: V)
    requires
        distinct_keys(s),
    ensures
        distinct_keys(insert_entry(s, k, v)),
        has_key(insert_entry(s, k, v), k),
        forall|k2: KeyCode| #[trigger] has_key(insert_entry(s, k, v), k2) <==> (k2 == k || has_key(s, k2)),
{
    lemma_index_of_key(s, k);
    let t = insert_entry(s, k, v);
    lemma_index_of_key(t, k);
    assert forall|k2: KeyCode| #[trigger] has_key(t, k2) <==> (k2 == k || has_key(s, k2)) by {
        lemma_index_of_key(s, k2);
        lemma_index_of_key(t, k2);
        if has_key(s, k2) {
            let j = index_of_key(s, k2);
            assert(t[j].0 == k2);
        }
        if has_key(t, k2) && k2 != k {
            let j = index_of_key(t, k2);
            assert(j < s.len());
            assert(s[j].0 == k2);
        }
    }
}

pub proof fn lemma_collect_entries<V>(pairs: Seq<(KeyCode, V)>)
    ensures
        distinct_keys(collect_entries(pairs)),
        forall|k: KeyCode|
            #[trigger] has_key(collect_entries(pairs), k) <==> exists|i: int|
                0 <= i < pairs.len() && pairs[i].0 == k,
    decreases pairs.len(),
{
    if pairs.len() > 0 {
        let rest = pairs.drop_last();
        lemma_collect_entries(rest);
        lemma_insert_entry(collect_entries(rest), pairs.last().0, pairs.last().1);
        assert forall|k: KeyCode| #[trigger]
            has_key(collect_entries(pairs), k) <==> exists|i: int|
                0 <= i < pairs.len() && pairs[i].0 == k by {
            if has_key(collect_entries(rest), k) {
                let i = choose|i: int| 0 <= i < rest.len() && rest[i].0 == k;
                assert(pairs[i] == rest[i]);
            }
            if exists|i: int| 0 <= i < pairs.len() && pairs[i].0 == k {
                let i = choose|i: int| 0 <= i < pairs.len() && pairs[i].0 == k;
                if i < pairs.len() - 1 {
                    assert(pairs[i] == rest[i]);
                }
            }
        }
    }
}

/// What a map of executions holds: its entries in order.
pub uninterp spec fn execution_entries(map: IndexMap<KeyCode, Execution>) -> Seq<(KeyCode, ExecutionView)>;

/// What a map of applicable migrations holds: its entries in order.
pub uninterp spec fn applicable_entries(map: IndexMap<KeyCode, ApplicableMigration>) -> Seq<
    (KeyCode, ApplicableMigrationView),
>;

/// Calls `IndexMap::new` for executions.
///
/// Trusted: the new map holds no entries.
#[verifier::external_body]
pub(crate) fn new_executions() -> (map: IndexMap<KeyCode, Execution>)
    ensures
        execution_entries(map) == Seq::<(KeyCode, ExecutionView)>::empty(),
{
    IndexMap::new()
}

/// Calls `IndexMap::insert` on a map of executions.
///
/// Trusted: an entry with the same key keeps its place and takes the new
/// value, which `insert_entry` states; the previous value is returned.
#[verifier::external_body]
pub(crate) fn insert_execution(
    map: &mut IndexMap<KeyCode, Execution>,
    key: KeyCode,
    execution: Execution,
) -> (previous: Option<Execution>)
    ensures
        execution_entries(*final(map)) == insert_entry(
            execution_entries(*old(map)),
            key,
            execution@,
        ),
        previous is Some <==> has_key(execution_entries(*old(map)), key),
{
    map.insert(key, execution)
}

/// Calls `IndexMap::len` on a map of executions.
///
/// Trusted: the result is the number of entries.
#[verifier::external_body]
pub(crate) fn executions_len(map: &IndexMap<KeyCode, Execution>) -> (n: usize)
    ensures
        n == execution_entries(*map).len(),
{
    map.len()
}

/// Calls `IndexMap::contains_key` on a map of executions.
///
/// Trusted: the result says whether an entry has the key.
#[verifier::external_body]
pub(crate) fn contains_execution(map: &IndexMap<KeyCode, Execution>, key: &KeyCode) -> (b: bool)
    ensures
        b == has_key(execution_entries(*map), *key),
{
    map.contains_key(key)
}

/// Calls `IndexMap::get` on a map of executions.
///
/// Trusted: the result is the value of the entry with the key, if any.
#[verifier::external_body]
pub(crate) fn get_execution<'a>(map: &'a IndexMap<KeyCode, Execution>, key: &KeyCode) -> (r: Option<
    &'a Execution,
>)
    ensures
        match r {
            Some(e) => has_key(execution_entries(*map), *key) && e@ == execution_entries(
                *map,
            )[index_of_key(execution_entries(*map), *key)].1,
            None => !has_key(execution_entries(*map), *key),
        },
{
    map.get(key)
}

/// Calls `IndexMap::get_index` on a map of executions.
///
/// Trusted: the result is the entry at the position, if the map has one there.
#[verifier::external_body]
pub(crate) fn execution_at(map: &IndexMap<KeyCode, Execution>, index: usize) -> (r: Option<
    (&KeyCode, &Execution),
>)
    ensures
        match r {
            Some((k, e)) => index < execution_entries(*map).len() && *k == execution_entries(
                *map,
            )[index as int].0 && e@ == execution_entries(*map)[index as int].1,
            None => index >= execution_entries(*map).len(),
        },
{
    map.get_index(index)
}

/// Calls `IndexMap::new` for applicable migrations.
///
/// Trusted: the new map holds no entries.
#[verifier::external_body]
pub(crate) fn new_applicable() -> (map: IndexMap<KeyCode, ApplicableMigration>)
    ensures
        applicable_entries(map) == Seq::<(KeyCode, ApplicableMigrationView)>::empty(),
{
    IndexMap::new()
}

/// Calls `IndexMap::insert` on a map of applicable migrations.
///
/// Trusted: an entry with the same key keeps its place and takes the new
/// value, which `insert_entry` states; the previous value is returned.
#[verifier::external_body]
pub(crate) fn insert_applicable(
    map: &mut IndexMap<KeyCode, ApplicableMigration>,
    key: KeyCode,
    migration: ApplicableMigration,
) -> (previous: Option<ApplicableMigration>)
    ensures
        applicable_entries(*final(map)) == insert_entry(
            applicable_entries(*old(map)),
            key,
            migration@,
        ),
        previous is Some <==> has_key(applicable_entries(*old(map)), key),
{
    map.insert(key, migration)
}

/// Calls `IndexMap::len` on a map of applicable migrations.
///
/// Trusted: the result is the number of entries.
#[verifier::external_body]
pub(crate) fn applicable_len(map: &IndexMap<KeyCode, ApplicableMigration>) -> (n: usize)
    ensures
        n == applicable_entries(*map).len(),
{
    map.len()
}

/// Calls `IndexMap::get_index` on a map of applicable migrations.
///
/// Trusted: the result is the entry at the position, if the map has one there.
#[verifier::external_body]
pub(crate) fn applicable_at(map: &IndexMap<KeyCode, ApplicableMigration>, index: usize) -> (r: Option<
    (&KeyCode, &ApplicableMigration),
>)
    ensures
        match r {
            Some((k, m)) => index < applicable_entries(*map).len() && *k == applicable_entries(
                *map,
            )[index as int].0 && m@ == applicable_entries(*map)[index as int].1,
            None => index >= applicable_entries(*map).len(),
        },
{
    map.get_index(index)
}

/// A map of executions keyed by their keys, in the order given; a later
/// execution with the same key replaces an earlier one in its place.
pub fn executions_by_key(executions: Vec<Execution>) -> (map: IndexMap<KeyCode, Execution>)
    ensures
        execution_entries(map) == collect_entries(
            executions@.map_values(|e: Execution| (e.key.code(), e@)),
        ),
{
    let ghost all = executions@;
    let ghost pairs = all.map_values(|e: Execution| (e.key.code(), e@));
    let mut map = new_executions();
    assert(pairs.take(0) =~= Seq::<(KeyCode, ExecutionView)>::empty());
    for e in it: executions.into_iter()
        invariant
            it.seq() == all,
            pairs == all.map_values(|e: Execution| (e.key.code(), e@)),
            execution_entries(map) == collect_entries(pairs.take(it.index() as int)),
    {
        let ghost i = it.index() as int;
        let k = e.key.key_code();
        insert_execution(&mut map, k, e);
        assert(pairs.take(i + 1).drop_last() =~= pairs.take(i));
    }
    assert(pairs.take(all.len() as int) =~= pairs);
    map
}

} // verus!
