//! The insertion-ordered maps of `indexmap`, as the library uses them.
//!
//! Verus sees an `IndexMap` only through the wrappers below: each names the map's entries, in
//! order, and states what the wrapped method does to them.

use vstd::prelude::*;
use indexmap::IndexMap;
use crate::json::JsonValue;
use crate::question::Question;

verus! {

#[verifier::external_type_specification]
#[verifier::external_body]
#[verifier::reject_recursive_types(K)]
#[verifier::reject_recursive_types(V)]
#[verifier::reject_recursive_types(S)]
pub struct ExIndexMap<K, V, S>(IndexMap<K, V, S>);

/// Whether no key occurs twice among `entries`.
pub open spec fn keys_distinct<K, V>(entries: Seq<(K, V)>) -> bool {
    forall|i: int, j: int| 0 <= i < j < entries.len() ==> entries[i].0 != entries[j].0
}

// ---------------------------------------------------------------------------------------------
// Questions keyed by id.
// ---------------------------------------------------------------------------------------------

/// The (id, question) entries of a question map, in insertion order.
pub uninterp spec fn question_entries(m: IndexMap<String, Question>) -> Seq<(String, Question)>;

/// `IndexMap::len`: the number of entries.
#[verifier::external_body]
pub fn question_count(m: &IndexMap<String, Question>) -> (r: usize)
    ensures
        r == question_entries(*m).len(),
{
    m.len()
}

/// `IndexMap::get_index`: the entry at position `i` in insertion order, if any.
#[verifier::external_body]
pub fn question_at(m: &IndexMap<String, Question>, i: usize) -> (r: Option<(&String, &Question)>)
    ensures
        i < question_entries(*m).len() <==> r is Some,
        r matches Some((k, q)) ==> *k == question_entries(*m)[i as int].0 && *q
            == question_entries(*m)[i as int].1,
{
    m.get_index(i)
}

// ---------------------------------------------------------------------------------------------
// Choice criteria: option key to description.
// ---------------------------------------------------------------------------------------------

/// The (key, description) entries of a criteria map, in insertion order.
pub uninterp spec fn criteria_entries(m: IndexMap<String, JsonValue>) -> Seq<(String, JsonValue)>;

/// `IndexMap::len`: the number of entries.
#[verifier::external_body]
pub fn criteria_count(m: &IndexMap<String, JsonValue>) -> (r: usize)
    ensures
        r == criteria_entries(*m).len(),
{
    m.len()
}

/// `IndexMap::get_index`: the entry at position `i` in insertion order, if any.
#[verifier::external_body]
pub fn criteria_at(m: &IndexMap<String, JsonValue>, i: usize) -> (r: Option<(&String, &JsonValue)>)
    ensures
        i < criteria_entries(*m).len() <==> r is Some,
        r matches Some((k, v)) ==> *k == criteria_entries(*m)[i as int].0 && *v
            == criteria_entries(*m)[i as int].1,
{
    m.get_index(i)
}

// ---------------------------------------------------------------------------------------------
// Letter counts keyed by script index.
// ---------------------------------------------------------------------------------------------

/// The (script, count) entries of a count map, in insertion order.
pub uninterp spec fn count_entries(m: IndexMap<usize, usize>) -> Seq<(usize, usize)>;

/// Position of the first entry with key `k`.
pub open spec fn index_of_key(entries: Seq<(usize, usize)>, k: usize) -> Option<int>
    decreases entries.len(),
{
    if entries.len() == 0 {
        None
    } else {
        match index_of_key(entries.drop_last(), k) {
            Some(i) => Some(i),
            None => if entries.last().0 == k {
                Some(entries.len() - 1)
            } else {
                None
            },
        }
    }
}

/// The entries after inserting `(k, v)`: an existing key keeps its place and takes the new
/// value; a new key goes last.
pub open spec fn insert_entry(entries: Seq<(usize, usize)>, k: usize, v: usize) -> Seq<
    (usize, usize),
> {
    match index_of_key(entries, k) {
        Some(i) => entries.update(i, (k, v)),
        None => entries.push((k, v)),
    }
}

/// `IndexMap::new`: an empty map.
#[verifier::external_body]
pub fn counts_new() -> (r: IndexMap<usize, usize>)
    ensures
        count_entries(r) == Seq::<(usize, usize)>::empty(),
{
    IndexMap::new()
}

/// `IndexMap::get`: the value stored for `k`, if any.
#[verifier::external_body]
pub fn counts_get(m: &IndexMap<usize, usize>, k: usize) -> (r: Option<usize>)
    ensures
        r == (match index_of_key(count_entries(*m), k) {
            Some(i) => Some(count_entries(*m)[i].1),
            None => None,
        }),
{
    m.get(&k).copied()
}

/// `IndexMap::insert`: sets the value for `k`, keeping an existing key in place.
#[verifier::external_body]
pub fn counts_insert(m: &mut IndexMap<usize, usize>, k: usize, v: usize)
    ensures
        count_entries(*final(m)) == insert_entry(count_entries(*old(m)), k, v),
{
    m.insert(k, v);
}

/// `IndexMap::len`: the number of entries.
#[verifier::external_body]
pub fn counts_len(m: &IndexMap<usize, usize>) -> (r: usize)
    ensures
        r == count_entries(*m).len(),
{
    m.len()
}

/// `IndexMap::get_index`: the entry at position `i` in insertion order, if any.
#[verifier::external_body]
pub fn counts_at(m: &IndexMap<usize, usize>, i: usize) -> (r: Option<(usize, usize)>)
    ensures
        i < count_entries(*m).len() <==> r is Some,
        r matches Some(e) ==> e == count_entries(*m)[i as int],
{
    m.get_index(i).map(|(k, v)| (*k, *v))
}

} // verus!
