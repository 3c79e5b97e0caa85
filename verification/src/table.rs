//! Ordered tables of environment variables: `indexmap::IndexMap` from name
//! to value.

use indexmap::IndexMap;
use vstd::prelude::*;

verus! {

/// `indexmap::IndexMap`: a hash map that keeps its pairs in the order in
/// which their keys were first inserted.
#[verifier::external_type_specification]
#[verifier::external_body]
#[verifier::reject_recursive_types(K)]
#[verifier::reject_recursive_types(V)]
#[verifier::reject_recursive_types(S)]
pub struct ExIndexMap<K, V, S>(IndexMap<K, V, S>);

/// The pairs of a table, in its order.
pub uninterp spec fn entries(table: IndexMap<String, String>) -> Seq<(Seq<char>, Seq<char>)>;

/// The position of the first pair with the key; the length if there is
/// none.
pub open spec fn key_index(pairs: Seq<(Seq<char>, Seq<char>)>, key: Seq<char>) -> nat
    decreases pairs.len(),
{
    if pairs.len() > 0 && pairs[0].0 != key {
        1 + key_index(pairs.skip(1), key)
    } else {
        0
    }
}

/// The pairs after `key` was set to `value`: in place if the key is
/// there, else at the end.
pub open spec fn put(
    pairs: Seq<(Seq<char>, Seq<char>)>,
    key: Seq<char>,
    value: Seq<char>,
) -> Seq<(Seq<char>, Seq<char>)> {
    let i = key_index(pairs, key);
    if i < pairs.len() {
        pairs.update(i as int, (key, value))
    } else {
        pairs.push((key, value))
    }
}

/// No key occurs twice.
pub open spec fn distinct_keys(pairs: Seq<(Seq<char>, Seq<char>)>) -> bool {
    forall|i: int, j: int|
        0 <= i < j < pairs.len() ==> (#[trigger] pairs[i]).0 != (#[trigger] pairs[j]).0
}

/// `IndexMap::new` (indexmap): an empty table.
#[verifier::external_body]
pub(crate) fn new_table() -> (r: IndexMap<String, String>)
    ensures
        entries(r) == Seq::<(Seq<char>, Seq<char>)>::empty(),
{
    IndexMap::new()
}

/// `IndexMap::len` (indexmap): the number of pairs.
#[verifier::external_body]
pub(crate) fn table_len(table: &IndexMap<String, String>) -> (r: usize)
    ensures
        r == entries(*table).len(),
{
    table.len()
}

/// `IndexMap::get_index` (indexmap): the pair at a position, counted in
/// the order of the table; `None` from the end on.
#[verifier::external_body]
pub(crate) fn table_at(table: &IndexMap<String, String>, i: usize) -> (r: Option<
    (&String, &String),
>)
    ensures
        match r {
            Some((k, v)) => i < entries(*table).len() && entries(*table)[i as int] == (k@, v@),
            None => i >= entries(*table).len(),
        },
{
    table.get_index(i)
}

/// `IndexMap::insert` (indexmap): a key that is there keeps its place and
/// gets the value; a new key goes to the end.
#[verifier::external_body]
pub(crate) fn table_insert(table: &mut IndexMap<String, String>, key: String, value: String)
    ensures
        entries(*final(table)) == put(entries(*old(table)), key@, value@),
{
    table.insert(key, value);
}

/// `IndexMap::clone` (indexmap): a table with the same pairs in the same
/// order.
#[verifier::external_body]
pub(crate) fn table_clone(table: &IndexMap<String, String>) -> (r: IndexMap<String, String>)
    ensures
        entries(r) == entries(*table),
{
    table.clone()
}

/// `IndexMap::get_index_mut` (indexmap): lends the value at a position for
/// change, here to put another value there; its key and all other pairs
/// stay as they are.
#[verifier::external_body]
pub(crate) fn table_set(table: &mut IndexMap<String, String>, i: usize, value: String)
    requires
        i < entries(*old(table)).len(),
    ensures
        entries(*final(table)) == entries(*old(table)).update(
            i as int,
            (entries(*old(table))[i as int].0, value@),
        ),
{
    if let Some((_, slot)) = table.get_index_mut(i) {
        *slot = value;
    }
}

// ---------------------------------------------------------------------
// Laws
// ---------------------------------------------------------------------

/// The value of a key, if it is there.
pub open spec fn value_of(pairs: Seq<(Seq<char>, Seq<char>)>, key: Seq<char>) -> Option<
    Seq<char>,
> {
    let i = key_index(pairs, key);
    if i < pairs.len() {
        Some(pairs[i as int].1)
    } else {
        None
    }
}

/// The position of a key is that of its first pair.
pub proof fn lemma_key_index(pairs: Seq<(Seq<char>, Seq<char>)>, key: Seq<char>)
    ensures
        key_index(pairs, key) <= pairs.len(),
        key_index(pairs, key) < pairs.len() ==> pairs[key_index(pairs, key) as int].0 == key,
        forall|i: int| 0 <= i < key_index(pairs, key) ==> (#[trigger] pairs[i]).0 != key,
    decreases pairs.len(),
{
    if pairs.len() > 0 && pairs[0].0 != key {
        lemma_key_index(pairs.skip(1), key);
        assert forall|i: int| 0 <= i < key_index(pairs, key) implies (#[trigger] pairs[i]).0
            != key by {
            if i > 0 {
                assert(pairs.skip(1)[i - 1] == pairs[i]);
            }
        }
    }
}

proof fn lemma_key_index_is(pairs: Seq<(Seq<char>, Seq<char>)>, key: Seq<char>, n: nat)
    requires
        n <= pairs.len(),
        n < pairs.len() ==> pairs[n as int].0 == key,
        forall|i: int| 0 <= i < n ==> (#[trigger] pairs[i]).0 != key,
    ensures
        key_index(pairs, key) == n,
{
    lemma_key_index(pairs, key);
    let m = key_index(pairs, key);
    if m < n {
        assert(pairs[m as int].0 != key);
    } else if n < m {
        assert(pairs[n as int].0 != key);
    }
}

/// Setting a key gives it the value and changes no other key.
pub proof fn law_put_sets_one_key(
    pairs: Seq<(Seq<char>, Seq<char>)>,
    key: Seq<char>,
    value: Seq<char>,
    other: Seq<char>,
)
    ensures
        value_of(put(pairs, key, value), key) == Some(value),
        other != key ==> value_of(put(pairs, key, value), other) == value_of(pairs, other),
{
    let after = put(pairs, key, value);
    lemma_key_index(pairs, key);
    let n = key_index(pairs, key);
    lemma_key_index_is(after, key, n);
    lemma_key_index(pairs, other);
    let m = key_index(pairs, other);
    if other != key {
        if m < pairs.len() {
            assert forall|i: int| 0 <= i < m implies (#[trigger] after[i]).0 != other by {
                assert(pairs[i].0 != other);
            }
            lemma_key_index_is(after, other, m);
        } else {
            assert forall|i: int| 0 <= i < after.len() implies (#[trigger] after[i]).0
                != other by {
                if i < pairs.len() {
                    assert(pairs[i].0 != other);
                }
            }
            lemma_key_index_is(after, other, after.len());
        }
    }
}

/// Setting a key keeps the order of all keys: one that is there stays in
/// its place, a new one goes to the end.
pub proof fn law_put_keeps_the_order(
    pairs: Seq<(Seq<char>, Seq<char>)>,
    key: Seq<char>,
    value: Seq<char>,
)
    ensures
        forall|i: int|
            0 <= i < pairs.len() ==> (#[trigger] put(pairs, key, value)[i]).0 == pairs[i].0,
        value_of(pairs, key) is Some ==> put(pairs, key, value).len() == pairs.len(),
        value_of(pairs, key) is None ==> put(pairs, key, value) == pairs.push((key, value)),
{
    lemma_key_index(pairs, key);
}

/// Setting a key leaves no key twice where none was.
pub proof fn law_put_keeps_keys_distinct(
    pairs: Seq<(Seq<char>, Seq<char>)>,
    key: Seq<char>,
    value: Seq<char>,
)
    requires
        distinct_keys(pairs),
    ensures
        distinct_keys(put(pairs, key, value)),
{
    lemma_key_index(pairs, key);
    let after = put(pairs, key, value);
    assert forall|i: int, j: int| 0 <= i < j < after.len() implies (#[trigger] after[i]).0 != (
    #[trigger] after[j]).0 by {
        if j < pairs.len() {
            assert(pairs[i].0 != pairs[j].0);
        } else {
            assert(pairs[i].0 != key);
        }
    }
}

} // verus!
