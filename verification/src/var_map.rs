use vstd::prelude::*;

verus! {

#[verifier::external_type_specification]
#[verifier::external_body]
#[verifier::reject_recursive_types(K)]
#[verifier::reject_recursive_types(V)]
#[verifier::reject_recursive_types(S)]
pub struct ExIndexMap<K, V, S>(indexmap::IndexMap<K, V, S>);

/// The key/value pairs held by an insertion-ordered variable map, in
/// their insertion order, as character sequences.
pub uninterp spec fn entries_of(m: indexmap::IndexMap<String, String>) -> Seq<
    (Seq<char>, Seq<char>),
>;

/// `s` with `v` stored under `k`: an existing entry for `k` keeps its
/// place in the order and has its value replaced; otherwise the pair is
/// appended, last in order.
pub open spec fn upsert(s: Seq<(Seq<char>, Seq<char>)>, k: Seq<char>, v: Seq<char>) -> Seq<
    (Seq<char>, Seq<char>),
>
    decreases s.len(),
{
    if s.len() == 0 {
        seq![(k, v)]
    } else if s[0].0 == k {
        seq![(k, v)] + s.drop_first()
    } else {
        seq![s[0]] + upsert(s.drop_first(), k, v)
    }
}

/// Relies on indexmap::IndexMap::new: creates an empty map.
#[verifier::external_body]
pub(crate) fn new_var_map() -> (m: indexmap::IndexMap<String, String>)
    ensures
        entries_of(m) == Seq::<(Seq<char>, Seq<char>)>::empty(),
{
    indexmap::IndexMap::new()
}

/// Relies on indexmap::IndexMap::insert: an existing key keeps its
/// place in the order and has its value replaced; a new key is
/// appended, last in order.
#[verifier::external_body]
pub(crate) fn var_map_insert(m: &mut indexmap::IndexMap<String, String>, k: String, v: String)
    ensures
        entries_of(*final(m)) == upsert(entries_of(*old(m)), k@, v@),
{
    m.insert(k, v);
}

/// Relies on indexmap::IndexMap::keys: yields the keys in their order.
#[verifier::external_body]
pub(crate) fn var_map_keys(m: &indexmap::IndexMap<String, String>) -> (keys: Vec<String>)
    ensures
        keys.deep_view() == entries_of(*m).map_values(|p: (Seq<char>, Seq<char>)| p.0),
{
    m.keys().cloned().collect()
}

/// Relies on indexmap::IndexMap::iter: yields the pairs in their order.
#[verifier::external_body]
pub(crate) fn var_map_pairs(m: &indexmap::IndexMap<String, String>) -> (pairs: Vec<(String, String)>)
    ensures
        pairs.deep_view() == entries_of(*m),
{
    m.iter().map(|(k, v)| (k.clone(), v.clone())).collect()
}

} // verus!
