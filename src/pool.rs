//! Ordered name-to-word tables (the constant pool and the method table),
//! kept in a `linked_hash_map::LinkedHashMap`.
use linked_hash_map::LinkedHashMap;
use vstd::prelude::*;

verus! {

#[verifier::external_type_specification]
#[verifier::external_body]
#[verifier::reject_recursive_types(K)]
#[verifier::reject_recursive_types(V)]
#[verifier::reject_recursive_types(S)]
pub struct ExLinkedHashMap<K, V, S>(LinkedHashMap<K, V, S>);

/// A table from names (as bytes) to words, in order of insertion.
pub type Table = LinkedHashMap<Vec<u8>, i32>;

/// The entries of a table, in its iteration order.
pub uninterp spec fn table_entries(m: Table) -> Seq<(Seq<u8>, i32)>;

/// `e` after inserting `k`: an entry with key `k` leaves its place, and
/// `(k, v)` comes last.
pub open spec fn inserted(e: Seq<(Seq<u8>, i32)>, k: Seq<u8>, v: i32) -> Seq<(Seq<u8>, i32)> {
    e.filter(|p: (Seq<u8>, i32)| p.0 != k).push((k, v))
}

/// The value of the last entry with key `k`.
pub open spec fn lookup(e: Seq<(Seq<u8>, i32)>, k: Seq<u8>) -> Option<i32>
    decreases e.len(),
{
    if e.len() == 0 {
        None
    } else if e.last().0 == k {
        Some(e.last().1)
    } else {
        lookup(e.drop_last(), k)
    }
}

/// Relies on `LinkedHashMap::new`: an empty map.
#[verifier::external_body]
pub(crate) fn table_new() -> (r: Table)
    ensures
        table_entries(r) == Seq::<(Seq<u8>, i32)>::empty(),
{
    LinkedHashMap::new()
}

/// Relies on `LinkedHashMap::insert`: a new key is attached at the back; an
/// existing key gets the new value and is detached and attached at the back.
#[verifier::external_body]
pub(crate) fn table_insert(m: &mut Table, k: Vec<u8>, v: i32)
    ensures
        table_entries(*final(m)) == inserted(table_entries(*old(m)), k@, v),
{
    m.insert(k, v);
}

/// Relies on `LinkedHashMap::get`: the value stored under `k`.
#[verifier::external_body]
pub(crate) fn table_get(m: &Table, k: &Vec<u8>) -> (r: Option<i32>)
    ensures
        r == lookup(table_entries(*m), k@),
{
    m.get(k).copied()
}

/// Relies on `LinkedHashMap::len`: the number of entries.
#[verifier::external_body]
pub(crate) fn table_len(m: &Table) -> (r: usize)
    ensures
        r == table_entries(*m).len(),
{
    m.len()
}

/// Relies on `LinkedHashMap::iter`: the entries from the oldest to the
/// newest.
#[verifier::external_body]
pub(crate) fn table_entries_vec(m: &Table) -> (r: Vec<(Vec<u8>, i32)>)
    ensures
        r@.len() == table_entries(*m).len(),
        forall|i: int|
            0 <= i < r@.len() ==> (#[trigger] r@[i]).0@ == table_entries(*m)[i].0 && r@[i].1
                == table_entries(*m)[i].1,
{
    m.iter().map(|(k, v)| (k.clone(), *v)).collect()
}

} // verus!
