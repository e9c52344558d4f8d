//! Tables keyed by peer identity, modelled as a sequence of distinct
//! identities beside a sequence of values of the same length.

use crate::types::PeerId;
use vstd::prelude::*;

verus! {

/// The place of `id` among `ids`, if it is there.
pub open spec fn slot(ids: Seq<PeerId>, id: PeerId) -> Option<int> {
    if ids.contains(id) {
        Some(ids.index_of(id))
    } else {
        None
    }
}

/// The table after `id` has been given the value `v`: in its old place where
/// `id` was known, at the end where it was not.
pub open spec fn upsert<T>(ids: Seq<PeerId>, vals: Seq<T>, id: PeerId, v: T) -> (Seq<PeerId>, Seq<T>) {
    match slot(ids, id) {
        Some(i) => (ids, vals.update(i, v)),
        None => (ids.push(id), vals.push(v)),
    }
}

/// The value that `id` has in the table, if it has one.
pub open spec fn lookup<T>(ids: Seq<PeerId>, vals: Seq<T>, id: PeerId) -> Option<T> {
    match slot(ids, id) {
        Some(i) => Some(vals[i]),
        None => None,
    }
}

/// Among distinct identities, the place of the one at `i` is `i`.
pub proof fn lemma_slot_at(ids: Seq<PeerId>, i: int)
    requires
        ids.no_duplicates(),
        0 <= i < ids.len(),
    ensures
        slot(ids, ids[i]) == Some(i),
{
    assert(ids.contains(ids[i]));
    let j = ids.index_of(ids[i]);
    assert(0 <= j < ids.len() && ids[j] == ids[i]);
}

/// An identity that is found nowhere among `ids` has no place there.
pub proof fn lemma_slot_absent(ids: Seq<PeerId>, id: PeerId)
    requires
        forall|j: int| 0 <= j < ids.len() ==> ids[j] != id,
    ensures
        slot(ids, id) is None,
{
    if ids.contains(id) {
        let j = ids.index_of(id);
        assert(0 <= j < ids.len() && ids[j] == id);
    }
}

/// A place that `slot` gives is within the sequence and holds the identity.
pub proof fn lemma_slot_valid(ids: Seq<PeerId>, id: PeerId)
    ensures
        match slot(ids, id) {
            Some(i) => 0 <= i < ids.len() && ids[i] == id,
            None => forall|j: int| 0 <= j < ids.len() ==> ids[j] != id,
        },
{
    if ids.contains(id) {
        let j = ids.index_of(id);
        assert(0 <= j < ids.len() && ids[j] == id);
    }
}

/// Giving a value to an identity keeps the identities distinct, leaves every
/// other identity's value as it was, and makes the given value the one found.
pub proof fn lemma_upsert<T>(ids: Seq<PeerId>, vals: Seq<T>, id: PeerId, v: T)
    requires
        ids.no_duplicates(),
        ids.len() == vals.len(),
    ensures
        upsert(ids, vals, id, v).0.no_duplicates(),
        upsert(ids, vals, id, v).0.len() == upsert(ids, vals, id, v).1.len(),
        lookup(upsert(ids, vals, id, v).0, upsert(ids, vals, id, v).1, id) == Some(v),
        forall|other: PeerId|
            other != id ==> lookup(upsert(ids, vals, id, v).0, upsert(ids, vals, id, v).1, other)
                == lookup(ids, vals, other),
{
    let (ids2, vals2) = upsert(ids, vals, id, v);
    lemma_slot_valid(ids, id);
    match slot(ids, id) {
        Some(i) => {
            lemma_slot_at(ids, i);
            assert forall|other: PeerId| other != id implies lookup(ids2, vals2, other) == lookup(
                ids,
                vals,
                other,
            ) by {
                lemma_slot_valid(ids, other);
            }
        },
        None => {
            assert(ids2.no_duplicates());
            lemma_slot_at(ids2, ids.len() as int);
            assert forall|other: PeerId| other != id implies lookup(ids2, vals2, other) == lookup(
                ids,
                vals,
                other,
            ) by {
                lemma_slot_valid(ids, other);
                lemma_slot_valid(ids2, other);
                match slot(ids, other) {
                    Some(j) => {
                        lemma_slot_at(ids2, j);
                    },
                    None => {
                        if ids2.contains(other) {
                            let k = ids2.index_of(other);
                            assert(k < ids.len());
                            assert(ids[k] == other);
                        }
                    },
                }
            }
        },
    }
}

/// Taking one identity out keeps the others distinct and adds none.
pub proof fn lemma_remove_keeps_distinct(ids: Seq<PeerId>, i: int)
    requires
        ids.no_duplicates(),
        0 <= i < ids.len(),
    ensures
        ids.remove(i).no_duplicates(),
        forall|id: PeerId| ids.remove(i).contains(id) ==> ids.contains(id),
{
    let r = ids.remove(i);
    assert forall|j: int, k: int| 0 <= j < r.len() && 0 <= k < r.len() && j != k implies r[j]
        != r[k] by {
        let jj = if j < i { j } else { j + 1 };
        let kk = if k < i { k } else { k + 1 };
        assert(r[j] == ids[jj] && r[k] == ids[kk]);
    }
    assert forall|id: PeerId| r.contains(id) implies ids.contains(id) by {
        let j = choose|j: int| 0 <= j < r.len() && r[j] == id;
        let jj = if j < i { j } else { j + 1 };
        assert(ids[jj] == id);
    }
}

} // verus!
