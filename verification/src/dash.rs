//! The store's concurrent collections, from the dashmap crate: two
//! key-to-record maps and one address set, each modelled by what it
//! holds.

use vstd::prelude::*;

use crate::level::{Parsed, ParsedView};

verus! {

#[verifier::external_type_specification]
#[verifier::external_body]
#[verifier::reject_recursive_types(K)]
#[verifier::reject_recursive_types(V)]
#[verifier::reject_recursive_types(S)]
pub struct ExDashMap<K, V, S>(dashmap::DashMap<K, V, S>);

#[verifier::external_type_specification]
#[verifier::external_body]
#[verifier::reject_recursive_types(K)]
#[verifier::reject_recursive_types(S)]
pub struct ExDashSet<K, S>(dashmap::DashSet<K, S>);

/// A concurrent map from capability keys to validated records.
pub type LevelMap = dashmap::DashMap<u128, Parsed>;

/// A concurrent set of address byte strings.
pub type AddrSet = dashmap::DashSet<Vec<u8>>;

/// What a key-to-record map holds: each stored record, as its view,
/// under its key.
pub uninterp spec fn map_entries(m: LevelMap) -> Map<u128, ParsedView>;

/// What an address set holds: the byte strings put into it.
pub uninterp spec fn set_entries(s: AddrSet) -> Set<Seq<u8>>;

/// The empty key-to-record map.
pub open spec fn no_entries() -> Map<u128, ParsedView> {
    Map::empty()
}

/// Relies on dashmap's `DashMap::new`: a map holding nothing.
#[verifier::external_body]
pub(crate) fn dm_new() -> (r: LevelMap)
    ensures
        map_entries(r) == no_entries(),
{
    dashmap::DashMap::new()
}

/// Relies on dashmap's `insert`: the value is stored under the key,
/// replacing any previous value there.
#[verifier::external_body]
pub(crate) fn dm_insert(m: &mut LevelMap, k: u128, v: Parsed)
    ensures
        map_entries(*final(m)) == map_entries(*old(m)).insert(k, v@),
{
    m.insert(k, v);
}

/// Relies on dashmap's `remove`: the entry under the key leaves the
/// map, and its value comes back if one was there.
#[verifier::external_body]
pub(crate) fn dm_remove(m: &mut LevelMap, k: u128) -> (r: Option<Parsed>)
    ensures
        map_entries(*final(m)) == map_entries(*old(m)).remove(k),
        match r {
            Some(p) => map_entries(*old(m)).dom().contains(k) && p@ == map_entries(*old(m))[k],
            None => !map_entries(*old(m)).dom().contains(k),
        },
{
    m.remove(&k).map(|e| e.1)
}

/// Relies on dashmap's `get` and the record's `clone`: a copy of the
/// value under the key, if one is there.
#[verifier::external_body]
pub(crate) fn dm_get(m: &LevelMap, k: u128) -> (r: Option<Parsed>)
    ensures
        match r {
            Some(p) => map_entries(*m).dom().contains(k) && p@ == map_entries(*m)[k],
            None => !map_entries(*m).dom().contains(k),
        },
{
    m.get(&k).map(|e| e.value().clone())
}

/// Relies on dashmap's `contains_key`.
#[verifier::external_body]
pub(crate) fn dm_contains(m: &LevelMap, k: u128) -> (r: bool)
    ensures
        r == map_entries(*m).dom().contains(k),
{
    m.contains_key(&k)
}

/// `vs`, viewed, lists the values of `m`: one for each key, each
/// exactly once, in some order.
pub open spec fn lists_values_of(vs: Seq<Parsed>, m: Map<u128, ParsedView>) -> bool {
    exists|ks: Seq<u128>|
        #![auto]
        ks.no_duplicates() && ks.to_set() == m.dom() && vs.map_values(|p: Parsed| p@)
            == ks.map_values(|k: u128| m[k])
}

/// Relies on dashmap's iteration and the record's `clone`: a copy of
/// every stored value, each exactly once, in no promised order.
#[verifier::external_body]
pub(crate) fn dm_values(m: &LevelMap) -> (r: Vec<Parsed>)
    ensures
        lists_values_of(r@, map_entries(*m)),
{
    m.iter().map(|e| e.value().clone()).collect()
}

/// `vs`, viewed, lists the members of `s`: each exactly once, in
/// some order.
pub open spec fn lists_addrs_of(vs: Seq<Vec<u8>>, s: Set<Seq<u8>>) -> bool {
    &&& vs.map_values(|v: Vec<u8>| v@).no_duplicates()
    &&& vs.map_values(|v: Vec<u8>| v@).to_set() == s
}

/// Relies on dashmap's set iteration and `Vec`'s `clone`: a copy of
/// every member, each exactly once, in no promised order.
#[verifier::external_body]
pub(crate) fn ds_values(s: &AddrSet) -> (r: Vec<Vec<u8>>)
    ensures
        lists_addrs_of(r@, set_entries(*s)),
{
    s.iter().map(|e| e.key().clone()).collect()
}

/// Relies on dashmap's `DashSet::new`: a set holding nothing.
#[verifier::external_body]
pub(crate) fn ds_new() -> (s: AddrSet)
    ensures
        set_entries(s) == Set::<Seq<u8>>::empty(),
{
    dashmap::DashSet::new()
}

/// Relies on dashmap's `DashSet::insert`: the value joins the set.
#[verifier::external_body]
pub(crate) fn ds_insert(s: &mut AddrSet, v: Vec<u8>)
    ensures
        set_entries(*final(s)) == set_entries(*old(s)).insert(v@),
{
    s.insert(v);
}

/// Relies on dashmap's `DashSet::contains`.
#[verifier::external_body]
pub(crate) fn ds_contains(s: &AddrSet, v: &[u8]) -> (r: bool)
    ensures
        r == set_entries(*s).contains(v@),
{
    s.contains(v)
}

} // verus!
