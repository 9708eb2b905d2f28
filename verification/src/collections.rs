//! Hash maps and sets of the crates `rustc-hash` and `indexmap`.
//!
//! Nothing in this file is proved: every function here hands one call on to
//! its crate, and its contract says what that call is relied on to do. Keys
//! are integers, tuples of integers, or strings, whose equality and hashing
//! are those of the standard library.

use indexmap::{IndexMap, IndexSet};
use rustc_hash::{FxBuildHasher, FxHashMap, FxHashSet};
use std::hash::{Hash, RandomState};
use vstd::prelude::*;

verus! {

/// The hasher of `rustc-hash`.
#[verifier::external_type_specification]
#[verifier::external_body]
pub struct ExFxBuildHasher(FxBuildHasher);

/// A hash map that keeps its entries in the order of insertion.
#[verifier::external_type_specification]
#[verifier::external_body]
#[verifier::reject_recursive_types(K)]
#[verifier::reject_recursive_types(V)]
#[verifier::reject_recursive_types(S)]
pub struct ExIndexMap<K, V, S>(IndexMap<K, V, S>);

/// A hash set that keeps its values in the order of insertion.
#[verifier::external_type_specification]
#[verifier::external_body]
#[verifier::reject_recursive_types(T)]
#[verifier::reject_recursive_types(S)]
pub struct ExIndexSet<T, S>(IndexSet<T, S>);

/// Integers and tuples of integers, as keys.
pub(crate) trait IntKey: Eq + Hash {

}

impl IntKey for u32 {

}

impl IntKey for (u32, u32) {

}

impl IntKey for (u32, u32, u32) {

}

/// `FxHashMap::default` makes an empty map.
#[verifier::external_body]
pub(crate) fn fx_map<K: IntKey, V>() -> (r: FxHashMap<K, V>)
    ensures
        (r@ == Map::<K, V>::empty()),
{
    FxHashMap::default()
}

/// `HashMap::get` finds the value of a key.
#[verifier::external_body]
pub(crate) fn fx_get<K: IntKey, V>(m: &FxHashMap<K, V>, k: K) -> (r: Option<&V>)
    ensures
        match r {
            Some(v) => m@.contains_key(k) && *v == m@[k],
            None => !m@.contains_key(k),
        },
{
    m.get(&k)
}

/// `HashMap::insert` gives a key a value, in place of the one it had.
#[verifier::external_body]
pub(crate) fn fx_insert<K: IntKey, V>(m: &mut FxHashMap<K, V>, k: K, v: V)
    ensures
        final(m)@ == old(m)@.insert(k, v),
{
    m.insert(k, v);
}

/// `HashMap::remove` takes a key out and hands its value over.
#[verifier::external_body]
pub(crate) fn fx_remove<K: IntKey, V>(m: &mut FxHashMap<K, V>, k: K) -> (r: Option<V>)
    ensures
        final(m)@ == old(m)@.remove(k),
        match r {
            Some(v) => old(m)@.contains_key(k) && v == old(m)@[k],
            None => !old(m)@.contains_key(k),
        },
{
    m.remove(&k)
}

/// `FxHashSet::default` makes an empty set.
#[verifier::external_body]
pub(crate) fn fx_set<K: IntKey>() -> (r: FxHashSet<K>)
    ensures
        r@ == Set::<K>::empty(),
{
    FxHashSet::default()
}

/// `HashSet::insert` adds a value and says whether it was new.
#[verifier::external_body]
pub(crate) fn fx_set_insert<K: IntKey>(s: &mut FxHashSet<K>, k: K) -> (r: bool)
    ensures
        final(s)@ == old(s)@.insert(k),
        r == !old(s)@.contains(k),
{
    s.insert(k)
}

/// `HashSet::contains` says whether a value is there.
#[verifier::external_body]
pub(crate) fn fx_set_contains<K: IntKey>(s: &FxHashSet<K>, k: K) -> (r: bool)
    ensures
        r == s@.contains(k),
{
    s.contains(&k)
}

/// `HashSet::remove` takes a value out.
#[verifier::external_body]
pub(crate) fn fx_set_remove<K: IntKey>(s: &mut FxHashSet<K>, k: K)
    ensures
        final(s)@ == old(s)@.remove(k),
{
    s.remove(&k);
}

/// The numbers that a hash map has for names.
pub uninterp spec fn fx_names(m: FxHashMap<String, u32>) -> Map<Seq<char>, u32>;

/// `FxHashMap::default` makes an empty map of names.
#[verifier::external_body]
pub(crate) fn fx_name_map() -> (r: FxHashMap<String, u32>)
    ensures
        (fx_names(r) == Map::<Seq<char>, u32>::empty()),
{
    FxHashMap::default()
}

/// `HashMap::get` finds the number of a name.
#[verifier::external_body]
pub(crate) fn fx_name_get(m: &FxHashMap<String, u32>, name: &str) -> (r: Option<u32>)
    ensures
        match r {
            Some(v) => fx_names(*m).contains_key(name@) && v == fx_names(*m)[name@],
            None => !fx_names(*m).contains_key(name@),
        },
{
    m.get(name).copied()
}

/// `HashMap::insert` gives a name a number, in place of the one it had.
#[verifier::external_body]
pub(crate) fn fx_name_insert(m: &mut FxHashMap<String, u32>, name: String, v: u32)
    ensures
        fx_names(*final(m)) == fx_names(*old(m)).insert(name@, v),
{
    m.insert(name, v);
}

/// The lists of numbers that a hash map has for names.
pub uninterp spec fn fx_lists(m: FxHashMap<String, Vec<u32>>) -> Map<Seq<char>, Seq<u32>>;

/// `FxHashMap::default` makes an empty map of lists.
#[verifier::external_body]
pub(crate) fn fx_list_map() -> (r: FxHashMap<String, Vec<u32>>)
    ensures
        (fx_lists(r) == Map::<Seq<char>, Seq<u32>>::empty()),
{
    FxHashMap::default()
}

/// `HashMap::get` finds the list of a name.
#[verifier::external_body]
pub(crate) fn fx_list_get<'a>(m: &'a FxHashMap<String, Vec<u32>>, name: &str) -> (r: Option<
    &'a Vec<u32>,
>)
    ensures
        match r {
            Some(v) => fx_lists(*m).contains_key(name@) && v@ == fx_lists(*m)[name@],
            None => !fx_lists(*m).contains_key(name@),
        },
{
    m.get(name)
}

/// `HashMap::insert` gives a name a list, in place of the one it had.
#[verifier::external_body]
pub(crate) fn fx_list_insert(m: &mut FxHashMap<String, Vec<u32>>, name: String, v: Vec<u32>)
    ensures
        fx_lists(*final(m)) == fx_lists(*old(m)).insert(name@, v@),
{
    m.insert(name, v);
}

/// The numbers that an index map has for names.
pub uninterp spec fn index_names(m: IndexMap<String, u32, RandomState>) -> Map<Seq<char>, u32>;

/// `IndexMap::new` makes an empty map of names.
#[verifier::external_body]
pub(crate) fn index_name_map() -> (r: IndexMap<String, u32, RandomState>)
    ensures
        (index_names(r) == Map::<Seq<char>, u32>::empty()),
{
    IndexMap::new()
}

/// `IndexMap::get` finds the number of a name.
#[verifier::external_body]
pub(crate) fn index_name_get(m: &IndexMap<String, u32, RandomState>, name: &str) -> (r: Option<u32>)
    ensures
        match r {
            Some(v) => index_names(*m).contains_key(name@) && v == index_names(*m)[name@],
            None => !index_names(*m).contains_key(name@),
        },
{
    m.get(name).copied()
}

/// `IndexMap::insert` gives a name a number, in place of the one it had.
#[verifier::external_body]
pub(crate) fn index_name_insert(m: &mut IndexMap<String, u32, RandomState>, name: String, v: u32)
    ensures
        index_names(*final(m)) == index_names(*old(m)).insert(name@, v),
{
    m.insert(name, v);
}

/// The numbers that an index map has for pairs.
pub uninterp spec fn index_pairs(m: IndexMap<(u32, u32), u32, RandomState>) -> Map<
    (u32, u32),
    u32,
>;

/// `IndexMap::new` makes an empty map of pairs.
#[verifier::external_body]
pub(crate) fn index_pair_map() -> (r: IndexMap<(u32, u32), u32, RandomState>)
    ensures
        (index_pairs(r) == Map::<(u32, u32), u32>::empty()),
{
    IndexMap::new()
}

/// `IndexMap::get` finds the number of a pair.
#[verifier::external_body]
pub(crate) fn index_pair_get(m: &IndexMap<(u32, u32), u32, RandomState>, k: (u32, u32)) -> (r:
    Option<u32>)
    ensures
        match r {
            Some(v) => index_pairs(*m).contains_key(k) && v == index_pairs(*m)[k],
            None => !index_pairs(*m).contains_key(k),
        },
{
    m.get(&k).copied()
}

/// `IndexMap::insert` gives a pair a number, in place of the one it had.
#[verifier::external_body]
pub(crate) fn index_pair_insert(m: &mut IndexMap<(u32, u32), u32, RandomState>, k: (u32, u32), v:
    u32)
    ensures
        index_pairs(*final(m)) == index_pairs(*old(m)).insert(k, v),
{
    m.insert(k, v);
}

/// The entries of an index map, in order.
pub uninterp spec fn index_entries(m: IndexMap<u32, u32, RandomState>) -> Seq<(u32, u32)>;

/// The position of the first entry from `i` on that has the key; the length
/// if there is none.
pub open spec fn key_position(entries: Seq<(u32, u32)>, k: u32, i: int) -> int
    decreases entries.len() - i,
{
    if i < 0 || i >= entries.len() || entries[i].0 == k {
        i
    } else {
        key_position(entries, k, i + 1)
    }
}

/// Whether an entry has the key.
pub open spec fn has_key(entries: Seq<(u32, u32)>, k: u32) -> bool {
    key_position(entries, k, 0) < entries.len()
}

/// The value of a key.
pub open spec fn value_of(entries: Seq<(u32, u32)>, k: u32) -> u32 {
    entries[key_position(entries, k, 0)].1
}

/// The entries once a key has been given a value: a key that is there keeps
/// its place, a new one goes last.
pub open spec fn with_entry(entries: Seq<(u32, u32)>, k: u32, v: u32) -> Seq<(u32, u32)> {
    if has_key(entries, k) {
        entries.update(key_position(entries, k, 0), (k, v))
    } else {
        entries.push((k, v))
    }
}

/// `IndexMap::new` makes an empty map.
#[verifier::external_body]
pub(crate) fn index_map() -> (r: IndexMap<u32, u32, RandomState>)
    ensures
        (index_entries(r) == Seq::<(u32, u32)>::empty()),
{
    IndexMap::new()
}

/// `IndexMap::get` finds the value of a key.
#[verifier::external_body]
pub(crate) fn index_get(m: &IndexMap<u32, u32, RandomState>, k: u32) -> (r: Option<u32>)
    ensures
        match r {
            Some(v) => has_key(index_entries(*m), k) && v == value_of(index_entries(*m), k),
            None => !has_key(index_entries(*m), k),
        },
{
    m.get(&k).copied()
}

/// `IndexMap::insert` gives a key a value: a key that is there keeps its
/// place, a new one goes last.
#[verifier::external_body]
pub(crate) fn index_insert(m: &mut IndexMap<u32, u32, RandomState>, k: u32, v: u32)
    ensures
        index_entries(*final(m)) == with_entry(index_entries(*old(m)), k, v),
{
    m.insert(k, v);
}

/// `IndexMap::len` counts the entries.
#[verifier::external_body]
pub(crate) fn index_len(m: &IndexMap<u32, u32, RandomState>) -> (r: usize)
    ensures
        r == index_entries(*m).len(),
{
    m.len()
}

/// `IndexMap::get_index` hands out the entry at a position.
#[verifier::external_body]
pub(crate) fn index_at(m: &IndexMap<u32, u32, RandomState>, i: usize) -> (r: (u32, u32))
    requires
        i < index_entries(*m).len(),
    ensures
        r == index_entries(*m)[i as int],
{
    let (k, v) = m.get_index(i).unwrap();
    (*k, *v)
}

/// The values of an index set, in order.
pub uninterp spec fn index_members(s: IndexSet<u32, RandomState>) -> Seq<u32>;

/// The values once one has been added: one that is there keeps its place, a
/// new one goes last.
pub open spec fn with_member(members: Seq<u32>, v: u32) -> Seq<u32> {
    if members.contains(v) {
        members
    } else {
        members.push(v)
    }
}

/// `IndexSet::new` makes an empty set.
#[verifier::external_body]
pub(crate) fn index_set() -> (r: IndexSet<u32, RandomState>)
    ensures
        index_members(r) == Seq::<u32>::empty(),
{
    IndexSet::new()
}

/// `IndexSet::insert` adds a value, last if it is new, and says whether it
/// was.
#[verifier::external_body]
pub(crate) fn index_set_insert(s: &mut IndexSet<u32, RandomState>, v: u32) -> (r: bool)
    ensures
        index_members(*final(s)) == with_member(index_members(*old(s)), v),
        r == !index_members(*old(s)).contains(v),
{
    s.insert(v)
}

/// `IndexSet::contains` says whether a value is there.
#[verifier::external_body]
pub(crate) fn index_set_contains(s: &IndexSet<u32, RandomState>, v: u32) -> (r: bool)
    ensures
        r == index_members(*s).contains(v),
{
    s.contains(&v)
}

/// `IndexSet::get_index_of` finds the position of a value.
#[verifier::external_body]
pub(crate) fn index_set_position(s: &IndexSet<u32, RandomState>, v: u32) -> (r: Option<usize>)
    ensures
        match r {
            Some(i) => i < index_members(*s).len() && index_members(*s)[i as int] == v && (
            forall|j: int| 0 <= j < i ==> index_members(*s)[j] != v),
            None => !index_members(*s).contains(v),
        },
{
    s.get_index_of(&v)
}

/// `IndexSet::len` counts the values.
#[verifier::external_body]
pub(crate) fn index_set_len(s: &IndexSet<u32, RandomState>) -> (r: usize)
    ensures
        r == index_members(*s).len(),
{
    s.len()
}

/// `IndexSet::get_index` hands out the value at a position.
#[verifier::external_body]
pub(crate) fn index_set_at(s: &IndexSet<u32, RandomState>, i: usize) -> (r: u32)
    requires
        i < index_members(*s).len(),
    ensures
        r == index_members(*s)[i as int],
{
    *s.get_index(i).unwrap()
}

/// Whether one triple of numbers comes before another, number by number.
pub open spec fn triple_before(a: (u32, u32, u8), b: (u32, u32, u8)) -> bool {
    a.0 < b.0 || (a.0 == b.0 && (a.1 < b.1 || (a.1 == b.1 && a.2 < b.2)))
}

/// `slice::sort_unstable` puts the elements in ascending order and keeps
/// each as often as it was there. Tuples compare element by element, from the
/// first on.
#[verifier::external_body]
pub(crate) fn sort_triples(list: &mut Vec<(u32, u32, u8)>)
    ensures
        (final(list)@.to_multiset() == old(list)@.to_multiset()),
        (forall|i: int, j: int|
            0 <= i <= j < final(list)@.len() ==> #[trigger] final(list)@[i]
                == #[trigger] final(list)@[j] || triple_before(final(list)@[i], final(list)@[j])),
{
    list.sort_unstable();
}

} // verus!
