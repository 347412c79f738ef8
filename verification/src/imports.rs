//! Which import each imported ttype came from, in the order in which they
//! were first imported, held in an `IndexMap` (ttype to import).
use indexmap::IndexMap;
use vstd::prelude::*;

verus! {

#[verifier::external_type_specification]
#[verifier::external_body]
#[verifier::reject_recursive_types(K)]
#[verifier::reject_recursive_types(V)]
#[verifier::reject_recursive_types(S)]
pub struct ExIndexMap<K, V, S>(IndexMap<K, V, S>);

/// The entries (ttype, import) of an `IndexMap`, in its order.
pub uninterp spec fn import_entries(m: IndexMap<String, String>) -> Seq<(Seq<char>, Seq<char>)>;

/// The keys of entries.
pub open spec fn entry_keys(es: Seq<(Seq<char>, Seq<char>)>) -> Seq<Seq<char>> {
    es.map_values(|e: (Seq<char>, Seq<char>)| e.0)
}

/// Whether no key occurs twice.
pub open spec fn keys_unique(es: Seq<(Seq<char>, Seq<char>)>) -> bool {
    forall|i: int, j: int| 0 <= i < j < es.len() ==> #[trigger] es[i].0 != #[trigger] es[j].0
}

/// `IndexMap::new`: a map with no entries.
#[verifier::external_body]
pub(crate) fn index_map_new() -> (m: IndexMap<String, String>)
    ensures
        import_entries(m) == Seq::<(Seq<char>, Seq<char>)>::empty(),
{
    IndexMap::new()
}

/// `IndexMap::insert`: if the key is present, its value is replaced in
/// place and the old value returned; otherwise the entry goes last and
/// `None` is returned. Keys stay unique.
#[verifier::external_body]
pub(crate) fn index_map_insert(m: &mut IndexMap<String, String>, key: String, value: String) -> (r: Option<String>)
    ensures
        keys_unique(import_entries(*old(m))) ==> keys_unique(import_entries(*final(m))),
        entry_keys(import_entries(*old(m))).contains(key@) ==> exists|i: int|
            0 <= i < import_entries(*old(m)).len() && import_entries(*old(m))[i].0 == key@
                && import_entries(*final(m)) == import_entries(*old(m)).update(i, (key@, value@))
                && (r matches Some(v) && v@ == import_entries(*old(m))[i].1),
        !entry_keys(import_entries(*old(m))).contains(key@) ==> r is None && import_entries(*final(m))
            == import_entries(*old(m)).push((key@, value@)),
{
    m.insert(key, value)
}

/// `IndexMap::contains_key`: whether some entry has the key.
#[verifier::external_body]
pub(crate) fn index_map_contains_key(m: &IndexMap<String, String>, key: &str) -> (b: bool)
    ensures
        b == entry_keys(import_entries(*m)).contains(key@),
{
    m.contains_key(key)
}

/// `IndexMap::len`: the number of entries.
#[verifier::external_body]
pub(crate) fn index_map_len(m: &IndexMap<String, String>) -> (n: usize)
    ensures
        n == import_entries(*m).len(),
{
    m.len()
}

/// `IndexMap::get_index`: the key of the entry at the given position.
#[verifier::external_body]
pub(crate) fn index_map_key_at(m: &IndexMap<String, String>, i: usize) -> (r: &String)
    requires
        i < import_entries(*m).len(),
    ensures
        r@ == import_entries(*m)[i as int].0,
{
    m.get_index(i).unwrap().0
}

/// `IndexMap::get_index`: the value of the entry at the given position.
#[verifier::external_body]
pub(crate) fn index_map_value_at(m: &IndexMap<String, String>, i: usize) -> (r: &String)
    requires
        i < import_entries(*m).len(),
    ensures
        r@ == import_entries(*m)[i as int].1,
{
    m.get_index(i).unwrap().1
}

/// `IndexMap::clear`: removes every entry.
#[verifier::external_body]
pub(crate) fn index_map_clear(m: &mut IndexMap<String, String>)
    ensures
        import_entries(*final(m)) == Seq::<(Seq<char>, Seq<char>)>::empty(),
{
    m.clear()
}

} // verus!
