//! The concurrent maps that the cache and the rate limiter keep their data in,
//! with what they hold stated as mathematical maps.
use vstd::prelude::*;

verus! {

#[verifier::external_type_specification]
#[verifier::external_body]
#[verifier::reject_recursive_types(K)]
#[verifier::reject_recursive_types(V)]
#[verifier::reject_recursive_types(S)]
pub struct ExDashMap<K, V, S>(dashmap::DashMap<K, V, S>);

/// What a map of texts holds, key to content.
pub uninterp spec fn text_entries(m: dashmap::DashMap<String, String>) -> Map<Seq<char>, Seq<char>>;

/// Relies on dashmap::DashMap::new: a new map holds nothing.
#[verifier::external_body]
pub(crate) fn text_map_new() -> (r: dashmap::DashMap<String, String>)
    ensures
        text_entries(r).dom() == Set::<Seq<char>>::empty(),
{
    dashmap::DashMap::new()
}

/// Relies on dashmap::DashMap::insert: the key now maps to the value, and the
/// value it had before, if any, is handed back.
#[verifier::external_body]
pub(crate) fn text_map_insert(m: &mut dashmap::DashMap<String, String>, k: String, v: String) -> (r: Option<String>)
    ensures
        text_entries(*final(m)) == text_entries(*old(m)).insert(k@, v@),
        r is Some <==> text_entries(*old(m)).contains_key(k@),
        r is Some ==> r->0@ == text_entries(*old(m))[k@],
{
    m.insert(k, v)
}

/// Relies on dashmap::DashMap::get: the value that the key maps to, if any.
#[verifier::external_body]
pub(crate) fn text_map_get(m: &dashmap::DashMap<String, String>, k: &String) -> (r: Option<String>)
    ensures
        r is Some <==> text_entries(*m).contains_key(k@),
        r is Some ==> r->0@ == text_entries(*m)[k@],
{
    m.get(k).map(|e| e.value().clone())
}

/// Relies on dashmap::DashMap::remove: the key leaves the map, and its value,
/// if it had one, is handed back.
#[verifier::external_body]
pub(crate) fn text_map_remove(m: &mut dashmap::DashMap<String, String>, k: &String) -> (r: Option<String>)
    ensures
        text_entries(*final(m)) == text_entries(*old(m)).remove(k@),
        r is Some <==> text_entries(*old(m)).contains_key(k@),
        r is Some ==> r->0@ == text_entries(*old(m))[k@],
{
    m.remove(k).map(|(_, v)| v)
}

/// What a map of time stamps holds, client identity to milliseconds.
pub uninterp spec fn stamp_entries(m: dashmap::DashMap<String, i64>) -> Map<Seq<char>, i64>;

/// Relies on dashmap::DashMap::new: a new map holds nothing.
#[verifier::external_body]
pub(crate) fn stamp_map_new() -> (r: dashmap::DashMap<String, i64>)
    ensures
        stamp_entries(r).dom() == Set::<Seq<char>>::empty(),
{
    dashmap::DashMap::new()
}

/// Relies on dashmap::DashMap::insert: the key now maps to the value.
#[verifier::external_body]
pub(crate) fn stamp_map_insert(m: &mut dashmap::DashMap<String, i64>, k: String, v: i64)
    ensures
        stamp_entries(*final(m)) == stamp_entries(*old(m)).insert(k@, v),
{
    m.insert(k, v);
}

/// Relies on dashmap::DashMap::get: the value that the key maps to, if any.
#[verifier::external_body]
pub(crate) fn stamp_map_get(m: &dashmap::DashMap<String, i64>, k: &String) -> (r: Option<i64>)
    ensures
        r == (if stamp_entries(*m).contains_key(k@) { Some(stamp_entries(*m)[k@]) } else { None::<i64> }),
{
    m.get(k).map(|e| *e.value())
}

} // verus!
