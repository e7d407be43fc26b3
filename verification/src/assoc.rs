//! Association lists keyed by character sequences: the model behind the
//! attribute and property maps. Lookup returns the first entry with the key;
//! insertion replaces that entry or appends a new one.

use vstd::prelude::*;

verus! {

/// First value stored under key `k`, scanning `entries` from index `i` on.
pub open spec fn assoc_from<V>(entries: Seq<(Seq<char>, V)>, k: Seq<char>, i: int) -> Option<V>
    decreases entries.len() - i,
{
    if i < 0 || i >= entries.len() {
        None
    } else if entries[i].0 == k {
        Some(entries[i].1)
    } else {
        assoc_from(entries, k, i + 1)
    }
}

/// The value stored under key `k`, if any.
pub open spec fn assoc<V>(entries: Seq<(Seq<char>, V)>, k: Seq<char>) -> Option<V> {
    assoc_from(entries, k, 0)
}

/// Index of the first entry with key `k`, scanning from `i`; the length when
/// there is none.
pub open spec fn assoc_index_from<V>(entries: Seq<(Seq<char>, V)>, k: Seq<char>, i: int) -> int
    decreases entries.len() - i,
{
    if i < 0 || i >= entries.len() {
        entries.len() as int
    } else if entries[i].0 == k {
        i
    } else {
        assoc_index_from(entries, k, i + 1)
    }
}

/// The entries after storing `v` under `k`: the first entry with key `k` is
/// replaced, or a new entry is appended when the key is new.
pub open spec fn assoc_insert<V>(entries: Seq<(Seq<char>, V)>, k: Seq<char>, v: V) -> Seq<
    (Seq<char>, V),
> {
    let i = assoc_index_from(entries, k, 0);
    if i < entries.len() {
        entries.update(i, (k, v))
    } else {
        entries.push((k, v))
    }
}

/// Looking up the key just inserted finds the inserted value.
pub proof fn lemma_assoc_insert_same<V>(entries: Seq<(Seq<char>, V)>, k: Seq<char>, v: V)
    ensures
        assoc(assoc_insert(entries, k, v), k) == Some(v),
{
    let j = assoc_index_from(entries, k, 0);
    lemma_assoc_index_bounds(entries, k, 0);
    if j < entries.len() {
        lemma_assoc_found_at(entries.update(j, (k, v)), k, 0, j);
    } else {
        lemma_assoc_found_at(entries.push((k, v)), k, 0, j);
    }
}

/// Looking up another key is unchanged by an insertion.
pub proof fn lemma_assoc_insert_other<V>(
    entries: Seq<(Seq<char>, V)>,
    k: Seq<char>,
    v: V,
    k2: Seq<char>,
)
    requires
        k2 != k,
    ensures
        assoc(assoc_insert(entries, k, v), k2) == assoc(entries, k2),
{
    lemma_assoc_index_bounds(entries, k, 0);
    lemma_assoc_insert_other_from(entries, k, v, k2, 0);
}

/// The first index with key `k` lies between `i` and the length, and all
/// earlier scanned entries have other keys; when it is in range it holds `k`.
pub proof fn lemma_assoc_index_bounds<V>(entries: Seq<(Seq<char>, V)>, k: Seq<char>, i: int)
    requires
        0 <= i <= entries.len(),
    ensures
        i <= assoc_index_from(entries, k, i) <= entries.len(),
        forall|j: int|
            i <= j < assoc_index_from(entries, k, i) ==> entries[j].0 != k,
        assoc_index_from(entries, k, i) < entries.len() ==> entries[assoc_index_from(
            entries,
            k,
            i,
        )].0 == k,
    decreases entries.len() - i,
{
    if i < entries.len() && entries[i].0 != k {
        lemma_assoc_index_bounds(entries, k, i + 1);
    }
}

/// When entries `i..j` have other keys and entry `j` has key `k`, the scan
/// from `i` finds entry `j`.
pub proof fn lemma_assoc_found_at<V>(entries: Seq<(Seq<char>, V)>, k: Seq<char>, i: int, j: int)
    requires
        0 <= i <= j < entries.len(),
        forall|m: int| i <= m < j ==> entries[m].0 != k,
        entries[j].0 == k,
    ensures
        assoc_from(entries, k, i) == Some(entries[j].1),
    decreases j - i,
{
    if i < j {
        lemma_assoc_found_at(entries, k, i + 1, j);
    }
}

proof fn lemma_assoc_insert_other_from<V>(
    entries: Seq<(Seq<char>, V)>,
    k: Seq<char>,
    v: V,
    k2: Seq<char>,
    i: int,
)
    requires
        k2 != k,
        0 <= i <= entries.len(),
    ensures
        assoc_from(assoc_insert(entries, k, v), k2, i) == assoc_from(entries, k2, i),
    decreases entries.len() - i,
{
    lemma_assoc_index_bounds(entries, k, 0);
    if i < entries.len() {
        lemma_assoc_insert_other_from(entries, k, v, k2, i + 1);
    } else {
        let j = assoc_index_from(entries, k, 0);
        if j >= entries.len() {
            assert(assoc_from(entries.push((k, v)), k2, i + 1) is None);
        }
    }
}

} // verus!
