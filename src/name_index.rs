//! The map from collection name to slot number, kept in a `DashMap`.

use vstd::prelude::*;

use dashmap::DashMap;

verus! {

#[verifier::external_type_specification]
#[verifier::external_body]
#[verifier::reject_recursive_types(K)]
#[verifier::reject_recursive_types(V)]
#[verifier::reject_recursive_types(S)]
pub struct ExDashMap<K, V, S>(DashMap<K, V, S>);

/// Collection names, each with the number of its slot.
pub type NameIndex = DashMap<String, usize>;

/// The entries of a name index: each name, as characters, with its slot.
pub uninterp spec fn index_contents(m: NameIndex) -> Map<Seq<char>, usize>;

/// Relies on `DashMap::new`: the map it returns holds no entry.
#[verifier::external_body]
pub(crate) fn new_index() -> (r: NameIndex)
    ensures
        index_contents(r).dom().is_empty(),
{
    DashMap::new()
}

/// Relies on `DashMap::get`: the value stored under a key equal to `name`,
/// if there is one (`String` keys are equal when their characters are).
#[verifier::external_body]
pub(crate) fn index_get(m: &NameIndex, name: &String) -> (r: Option<usize>)
    ensures
        index_contents(*m).contains_key(name@) ==> r == Some(index_contents(*m)[name@]),
        !index_contents(*m).contains_key(name@) ==> r is None,
{
    m.get(name).map(|entry| *entry)
}

/// Relies on `DashMap::insert`: afterwards `name` maps to `slot`, and every
/// other key keeps its value.
#[verifier::external_body]
pub(crate) fn index_insert(m: &mut NameIndex, name: String, slot: usize)
    ensures
        index_contents(*final(m)) == index_contents(*old(m)).insert(name@, slot),
{
    m.insert(name, slot);
}

} // verus!
