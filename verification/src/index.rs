//! The in-memory index: a concurrent map from key to the location of the
//! latest record for that key in the log. The map itself is dashmap's
//! sharded hash table; the library states its behaviour through a ghost
//! view of its contents and proves everything around it.

use vstd::prelude::*;

verus! {

/// Where the latest record for a key lies in the log.
#[derive(Debug, Clone, Copy, PartialEq, Eq)]
pub struct ValueData {
    pub size: usize,
    pub offset: u64,
}

/// The mathematical shape of a location: offset and length as integers.
pub struct LocModel {
    pub offset: int,
    pub len: int,
}

impl View for ValueData {
    type V = LocModel;

    open spec fn view(&self) -> LocModel {
        LocModel { offset: self.offset as int, len: self.size as int }
    }
}

#[verifier::external_type_specification]
#[verifier::external_body]
#[verifier::reject_recursive_types(K)]
#[verifier::reject_recursive_types(V)]
#[verifier::reject_recursive_types(S)]
pub struct ExDashMap<K, V, S>(dashmap::DashMap<K, V, S>);

/// What the index holds: a map from each present key to its location.
pub uninterp spec fn dash_view(m: dashmap::DashMap<String, ValueData>) -> Map<Seq<char>, LocModel>;

/// The view of an index with no entries.
pub open spec fn empty_index() -> Map<Seq<char>, LocModel> {
    Map::empty()
}

/// Relies on dashmap::DashMap::new: it makes an empty map.
#[verifier::external_body]
pub(crate) fn dash_new() -> (r: dashmap::DashMap<String, ValueData>)
    ensures
        dash_view(r) == empty_index(),
{
    dashmap::DashMap::new()
}

/// Relies on dashmap::DashMap::insert: it maps the key to the value and
/// returns the value the key was mapped to before, if there was one.
#[verifier::external_body]
pub(crate) fn dash_insert(
    m: &mut dashmap::DashMap<String, ValueData>,
    key: String,
    value: ValueData,
) -> (prev: Option<ValueData>)
    ensures
        dash_view(*final(m)) == dash_view(*old(m)).insert(key@, value@),
        prev is Some <==> dash_view(*old(m)).contains_key(key@),
        prev is Some ==> prev->0@ == dash_view(*old(m))[key@],
{
    m.insert(key, value)
}

/// Relies on dashmap::DashMap::get: it returns the value the key is mapped
/// to, if the key is present.
#[verifier::external_body]
pub(crate) fn dash_get(m: &dashmap::DashMap<String, ValueData>, key: &String) -> (r: Option<
    ValueData,
>)
    ensures
        r is Some <==> dash_view(*m).contains_key(key@),
        r is Some ==> r->0@ == dash_view(*m)[key@],
{
    m.get(key).map(|entry| *entry)
}

/// Relies on dashmap::DashMap::remove: it unmaps the key and returns the
/// value the key was mapped to before, if there was one.
#[verifier::external_body]
pub(crate) fn dash_remove(m: &mut dashmap::DashMap<String, ValueData>, key: &String) -> (prev:
    Option<ValueData>)
    ensures
        dash_view(*final(m)) == dash_view(*old(m)).remove(key@),
        prev is Some <==> dash_view(*old(m)).contains_key(key@),
        prev is Some ==> prev->0@ == dash_view(*old(m))[key@],
{
    m.remove(key).map(|kv| kv.1)
}

/// Relies on dashmap::DashMap::iter: it visits every entry exactly once,
/// in no fixed order.
#[verifier::external_body]
pub(crate) fn dash_keys(m: &dashmap::DashMap<String, ValueData>) -> (ks: Vec<String>)
    ensures
        ks@.map_values(|k: String| k@).to_set() == dash_view(*m).dom(),
        ks@.map_values(|k: String| k@).no_duplicates(),
{
    m.iter().map(|entry| entry.key().clone()).collect()
}

} // verus!
