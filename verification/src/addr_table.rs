//! The writer's table of addresses: an `IndexMap` from an address to the
//! value written for it, if any, kept in the order of insertion.
use vstd::prelude::*;
use indexmap::IndexMap;
use crate::bytes::Bytes;
use crate::writer::{key_index, unique_keys};

verus! {

#[verifier::external_type_specification]
#[verifier::external_body]
#[verifier::reject_recursive_types(K)]
#[verifier::reject_recursive_types(V)]
#[verifier::reject_recursive_types(S)]
pub struct ExIndexMap<K, V, S>(IndexMap<K, V, S>);

/// The entries of an address table, in their order.
pub uninterp spec fn addr_table(m: IndexMap<u64, Option<Bytes>>) -> Seq<(u64, Option<Seq<u8>>)>;

/// The contents of an optional value.
pub open spec fn opt_bytes(v: Option<Bytes>) -> Option<Seq<u8>> {
    match v {
        Some(b) => Some(b@),
        None => None,
    }
}

/// `IndexMap::new`: a table with no entry.
#[verifier::external_body]
pub(crate) fn table_new() -> (r: IndexMap<u64, Option<Bytes>>)
    ensures
        addr_table(r) == Seq::<(u64, Option<Seq<u8>>)>::empty(),
{
    IndexMap::new()
}

/// `IndexMap::len`: the number of entries.
#[verifier::external_body]
pub(crate) fn table_len(m: &IndexMap<u64, Option<Bytes>>) -> (r: usize)
    ensures
        r == addr_table(*m).len(),
{
    m.len()
}

/// `IndexMap::contains_key`: whether an entry has the key `k`.
#[verifier::external_body]
pub(crate) fn table_contains(m: &IndexMap<u64, Option<Bytes>>, k: u64) -> (r: bool)
    ensures
        r == (key_index(addr_table(*m), k) is Some),
{
    m.contains_key(&k)
}

/// `IndexMap::shift_remove`: takes out the entry of `k`, where there is
/// one, and returns its value; the other entries keep their order. Keys
/// stay distinct.
#[verifier::external_body]
pub(crate) fn table_shift_remove(m: &mut IndexMap<u64, Option<Bytes>>, k: u64) -> (r: Option<
    Option<Bytes>,
>)
    ensures
        match key_index(addr_table(*old(m)), k) {
            Some(i) => addr_table(*final(m)) == addr_table(*old(m)).remove(i) && (r matches Some(v)
                && opt_bytes(v) == addr_table(*old(m))[i].1),
            None => addr_table(*final(m)) == addr_table(*old(m)) && r is None,
        },
        unique_keys(addr_table(*final(m))),
{
    m.shift_remove(&k)
}

/// `IndexMap::insert`: where `k` has an entry, its value becomes `v` in
/// place and the old value is returned; else the entry goes last. Keys stay
/// distinct.
#[verifier::external_body]
pub(crate) fn table_insert(m: &mut IndexMap<u64, Option<Bytes>>, k: u64, v: Option<Bytes>) -> (r:
    Option<Option<Bytes>>)
    ensures
        match key_index(addr_table(*old(m)), k) {
            Some(i) => addr_table(*final(m)) == addr_table(*old(m)).update(i, (k, opt_bytes(v)))
                && (r matches Some(x) && opt_bytes(x) == addr_table(*old(m))[i].1),
            None => addr_table(*final(m)) == addr_table(*old(m)).push((k, opt_bytes(v))) && r is None,
        },
        unique_keys(addr_table(*final(m))),
{
    m.insert(k, v)
}

/// `IndexMap::get_mut`, through which the value of the entry of `k`
/// becomes `v`; it panics where `k` has no entry.
#[verifier::external_body]
pub(crate) fn table_set(m: &mut IndexMap<u64, Option<Bytes>>, k: u64, v: Option<Bytes>)
    requires
        key_index(addr_table(*old(m)), k) is Some,
    ensures
        addr_table(*final(m)) == addr_table(*old(m)).update(
            key_index(addr_table(*old(m)), k)->0,
            (k, opt_bytes(v)),
        ),
        unique_keys(addr_table(*final(m))),
{
    *m.get_mut(&k).expect("addr exists") = v;
}

/// `IndexMap::get_index_mut`, through which the value of the entry at
/// index `i` is taken out; it panics where there is no such entry.
#[verifier::external_body]
pub(crate) fn table_take(m: &mut IndexMap<u64, Option<Bytes>>, i: usize) -> (r: (u64, Option<Bytes>))
    requires
        i < addr_table(*old(m)).len(),
    ensures
        r.0 == addr_table(*old(m))[i as int].0,
        opt_bytes(r.1) == addr_table(*old(m))[i as int].1,
        addr_table(*final(m)) == addr_table(*old(m)).update(
            i as int,
            (addr_table(*old(m))[i as int].0, None),
        ),
        unique_keys(addr_table(*final(m))),
{
    let (k, slot) = m.get_index_mut(i).expect("index in range");
    (*k, slot.take())
}

} // verus!
