//! What holds of entries that are looked up by their keys.

use crate::collections::{has_key, key_position, value_of, with_entry};
use vstd::prelude::*;

verus! {

/// A position that is found is that of an entry with the key.
pub proof fn key_found(entries: Seq<(u32, u32)>, k: u32, i: int)
    requires
        0 <= i <= entries.len(),
    ensures
        i <= key_position(entries, k, i) <= entries.len(),
        key_position(entries, k, i) < entries.len() ==> entries[key_position(entries, k, i)].0
            == k,
        forall|j: int|
            i <= j < entries.len() && (#[trigger] entries[j]).0 == k ==> key_position(
                entries,
                k,
                i,
            ) < entries.len(),
    decreases entries.len() - i,
{
    if i < entries.len() && entries[i].0 != k {
        key_found(entries, k, i + 1);
    }
}

proof fn same_keys(a: Seq<(u32, u32)>, b: Seq<(u32, u32)>, k: u32, i: int)
    requires
        a.len() == b.len(),
        forall|j: int| 0 <= j < a.len() ==> (#[trigger] b[j]).0 == a[j].0,
        0 <= i <= a.len(),
    ensures
        key_position(b, k, i) == key_position(a, k, i),
    decreases a.len() - i,
{
    if i < a.len() && a[i].0 != k {
        same_keys(a, b, k, i + 1);
    }
    if i < a.len() {
        assert(b[i].0 == a[i].0);
    }
}

proof fn pushed_key(e: Seq<(u32, u32)>, more: (u32, u32), k: u32, i: int)
    requires
        0 <= i <= e.len(),
    ensures
        key_position(e.push(more), k, i) == if key_position(e, k, i) < e.len() {
            key_position(e, k, i)
        } else if more.0 == k {
            e.len() as int
        } else {
            e.len() as int + 1
        },
    decreases e.len() - i,
{
    if i < e.len() {
        assert(e.push(more)[i] == e[i]);
        if e[i].0 != k {
            pushed_key(e, more, k, i + 1);
        }
    } else {
        assert(e.push(more)[i] == more);
        if more.0 != k {
            assert(key_position(e.push(more), k, i + 1) == i + 1);
        }
    }
}

/// What entries hold once a key has been given a value.
pub proof fn entry_facts(e: Seq<(u32, u32)>, k: u32, v: u32)
    ensures
        has_key(with_entry(e, k, v), k),
        value_of(with_entry(e, k, v), k) == v,
        forall|j: u32| #[trigger]
            has_key(with_entry(e, k, v), j) <==> has_key(e, j) || j == k,
        forall|j: u32|
            j != k && has_key(e, j) ==> #[trigger] value_of(with_entry(e, k, v), j) == value_of(
                e,
                j,
            ),
{
    let t = with_entry(e, k, v);
    assert forall|j: u32|
        #![trigger has_key(t, j)]
        #![trigger value_of(t, j)]
        (has_key(t, j) <==> has_key(e, j) || j == k) && (j != k && has_key(e, j) ==> value_of(t, j)
            == value_of(e, j)) by {
        key_found(e, j, 0);
        key_found(e, k, 0);
        if has_key(e, k) {
            same_keys(e, t, j, 0);
        } else {
            pushed_key(e, (k, v), j, 0);
        }
    }
    key_found(e, k, 0);
    if has_key(e, k) {
        same_keys(e, t, k, 0);
    } else {
        pushed_key(e, (k, v), k, 0);
    }
}

} // verus!
