//! Snapshot resolver: picks the single best snapshot for a tag.
//!
//! "Best" is the maximum under the codec's order — latest date first, then
//! highest tag sequence — and the answer is pinned down so completely that
//! it cannot depend on the order the storage layer enumerated the catalog
//! in.

use vstd::prelude::*;

use crate::catalog::{lemma_catalog_deep_view, snapshot_wf, Snapshot, SnapshotView};
use crate::codec::{
    format_spec, id_lt, lemma_format_injective, lemma_id_order_connected,
    lemma_id_order_irreflexive, lemma_id_order_transitive, precedes, valid_id, SnapshotIdView,
};
use crate::text::bytes_eq;

verus! {

/// Index `i` is the resolver's answer for `tag` in `cat`: its entry carries
/// the tag, no entry with the tag carries a later identifier, and among
/// entries carrying the maximal identifier it is the first.
pub open spec fn resolution(cat: Seq<SnapshotView>, tag: Seq<u8>, i: int) -> bool {
    &&& 0 <= i < cat.len()
    &&& cat[i].id.tag == tag
    &&& forall|j: int| #![trigger cat[j].id]
        0 <= j < cat.len() && cat[j].id.tag == tag ==> (id_lt(cat[j].id, cat[i].id) || cat[j].id
            == cat[i].id)
    &&& forall|j: int| #![trigger cat[j].id]
        0 <= j < i && cat[j].id.tag == tag ==> id_lt(cat[j].id, cat[i].id)
}

/// Picks the latest snapshot whose tag equals `tag` exactly; `None` when no
/// entry carries the tag.
pub fn resolve_by_tag(catalog: &Vec<Snapshot>, tag: &Vec<u8>) -> (r: Option<usize>)
    ensures
        match r {
            Some(i) => resolution(catalog.deep_view(), tag@, i as int),
            None => forall|j: int| #![trigger catalog.deep_view()[j].id]
                0 <= j < catalog.deep_view().len() ==> catalog.deep_view()[j].id.tag != tag@,
        },
{
    proof {
        lemma_catalog_deep_view(catalog);
    }
    let ghost cat: Seq<SnapshotView> = catalog.deep_view();
    let mut best: usize = 0;
    let mut found: bool = false;
    let mut k: usize = 0;
    while k < catalog.len()
        invariant
            k <= catalog.len(),
            cat == catalog.deep_view(),
            cat.len() == catalog@.len(),
            forall|j: int| 0 <= j < catalog@.len() ==> cat[j] == catalog@[j]@,
            !found ==> forall|j: int| #![trigger cat[j].id] 0 <= j < k ==> cat[j].id.tag != tag@,
            found ==> best < k && cat[best as int].id.tag == tag@,
            found ==> forall|j: int| #![trigger cat[j].id]
                0 <= j < k && cat[j].id.tag == tag@ ==> (id_lt(cat[j].id, cat[best as int].id)
                    || cat[j].id == cat[best as int].id),
            found ==> forall|j: int| #![trigger cat[j].id]
                0 <= j < best && cat[j].id.tag == tag@ ==> id_lt(cat[j].id, cat[best as int].id),
        decreases catalog.len() - k,
    {
        if bytes_eq(&catalog[k].id.tag, tag) {
            if !found {
                best = k;
                found = true;
            } else if precedes(&catalog[best].id, &catalog[k].id) {
                proof {
                    assert forall|j: int|
                        0 <= j < k && #[trigger] cat[j].id.tag == tag@ implies id_lt(
                        cat[j].id,
                        cat[k as int].id,
                    ) by {
                        if cat[j].id == cat[best as int].id {
                        } else {
                            lemma_id_order_transitive(
                                cat[j].id,
                                cat[best as int].id,
                                cat[k as int].id,
                            );
                        }
                    }
                }
                best = k;
            } else {
                proof {
                    if cat[k as int].id != cat[best as int].id {
                        lemma_id_order_connected(cat[k as int].id, cat[best as int].id);
                    }
                }
            }
        }
        k = k + 1;
    }
    if found {
        Some(best)
    } else {
        None
    }
}

/// The resolver's answer never depends on enumeration order: against two
/// catalogs holding the same entries, in whatever order, two answers for
/// one tag name the same snapshot.
pub proof fn lemma_resolution_deterministic(
    c1: Seq<SnapshotView>,
    c2: Seq<SnapshotView>,
    tag: Seq<u8>,
    i1: int,
    i2: int,
)
    requires
        c1.to_multiset() == c2.to_multiset(),
        resolution(c1, tag, i1),
        resolution(c2, tag, i2),
    ensures
        c1[i1].id == c2[i2].id,
{
    broadcast use vstd::seq_lib::group_to_multiset_ensures;

    let a = c1[i1];
    let b = c2[i2];
    assert(c1.contains(a));
    assert(c1.to_multiset().count(a) > 0);
    assert(c2.to_multiset().count(a) > 0);
    assert(c2.contains(a));
    let ja = choose|j: int| 0 <= j < c2.len() && c2[j] == a;
    assert(id_lt(a.id, b.id) || a.id == b.id) by {
        assert(c2[ja].id.tag == tag);
    }
    assert(c2.contains(b));
    assert(c2.to_multiset().count(b) > 0);
    assert(c1.to_multiset().count(b) > 0);
    assert(c1.contains(b));
    let jb = choose|j: int| 0 <= j < c1.len() && c1[j] == b;
    assert(id_lt(b.id, a.id) || b.id == a.id) by {
        assert(c1[jb].id.tag == tag);
    }
    if a.id != b.id {
        lemma_id_order_transitive(a.id, b.id, a.id);
        lemma_id_order_irreflexive(a.id);
    }
}

/// Against one catalog, calling the resolver twice returns the same index:
/// only one index satisfies the resolution contract.
pub proof fn lemma_resolution_unique(cat: Seq<SnapshotView>, tag: Seq<u8>, i: int, j: int)
    requires
        resolution(cat, tag, i),
        resolution(cat, tag, j),
    ensures
        i == j,
{
    if i < j {
        assert(id_lt(cat[i].id, cat[j].id));
        if cat[j].id == cat[i].id {
            lemma_id_order_irreflexive(cat[i].id);
        } else {
            lemma_id_order_transitive(cat[i].id, cat[j].id, cat[i].id);
            lemma_id_order_irreflexive(cat[i].id);
        }
    } else if j < i {
        assert(id_lt(cat[j].id, cat[i].id));
        if cat[i].id == cat[j].id {
            lemma_id_order_irreflexive(cat[j].id);
        } else {
            lemma_id_order_transitive(cat[j].id, cat[i].id, cat[j].id);
            lemma_id_order_irreflexive(cat[j].id);
        }
    }
}

/// A fresh tag sequence gives a fresh name: an identifier whose sequence
/// exceeds every sequence its lineage and tag already carry in a
/// well-formed catalog formats to a name no catalog entry holds, so the
/// safety snapshot never collides with an existing one.
pub proof fn lemma_fresh_sequence_fresh_name(cat: Seq<SnapshotView>, v: SnapshotIdView)
    requires
        valid_id(v),
        forall|i: int| 0 <= i < cat.len() ==> snapshot_wf(#[trigger] cat[i]),
        forall|i: int|
            0 <= i < cat.len() && lineage_tag_match(#[trigger] cat[i], v.root_name, v.root_id, v.tag)
                ==> cat[i].id.tag_sequence < v.tag_sequence,
    ensures
        forall|i: int| 0 <= i < cat.len() ==> (#[trigger] cat[i]).name != format_spec(v),
{
    assert forall|i: int| 0 <= i < cat.len() implies (#[trigger] cat[i]).name != format_spec(v) by {
        if cat[i].name == format_spec(v) {
            lemma_format_injective(cat[i].id, v);
            assert(lineage_tag_match(cat[i], v.root_name, v.root_id, v.tag));
        }
    }
}

/// The entry belongs to the given root lineage and carries the given tag.
pub open spec fn lineage_tag_match(
    s: SnapshotView,
    root_name: Seq<u8>,
    root_id: int,
    tag: Seq<u8>,
) -> bool {
    s.id.root_name == root_name && s.id.root_id == root_id && s.id.tag == tag
}

/// A tag sequence strictly above every sequence the catalog already holds
/// for this root and tag: one above the highest, or one when the tag is
/// new. `None` only when the counter space is exhausted.
pub fn next_tag_sequence(
    catalog: &Vec<Snapshot>,
    root_name: &Vec<u8>,
    root_id: u64,
    tag: &Vec<u8>,
) -> (r: Option<u64>)
    ensures
        match r {
            Some(n) => n >= 1 && (forall|j: int| #![trigger catalog.deep_view()[j]]
                0 <= j < catalog.deep_view().len() && lineage_tag_match(
                    catalog.deep_view()[j],
                    root_name@,
                    root_id as int,
                    tag@,
                ) ==> catalog.deep_view()[j].id.tag_sequence < n as int) && (n == 1 || exists|j: int|
                0 <= j < catalog.deep_view().len() && lineage_tag_match(
                    #[trigger] catalog.deep_view()[j],
                    root_name@,
                    root_id as int,
                    tag@,
                ) && catalog.deep_view()[j].id.tag_sequence == n - 1),
            None => exists|j: int|
                0 <= j < catalog.deep_view().len() && lineage_tag_match(
                    #[trigger] catalog.deep_view()[j],
                    root_name@,
                    root_id as int,
                    tag@,
                ) && catalog.deep_view()[j].id.tag_sequence == u64::MAX as int,
        },
{
    proof {
        lemma_catalog_deep_view(catalog);
    }
    let ghost cat: Seq<SnapshotView> = catalog.deep_view();
    let mut hi: u64 = 0;
    let mut have: bool = false;
    let mut k: usize = 0;
    while k < catalog.len()
        invariant
            k <= catalog.len(),
            cat == catalog.deep_view(),
            cat.len() == catalog@.len(),
            forall|j: int| 0 <= j < catalog@.len() ==> cat[j] == catalog@[j]@,
            forall|j: int| #![trigger cat[j]]
                0 <= j < k && lineage_tag_match(cat[j], root_name@, root_id as int, tag@)
                    ==> cat[j].id.tag_sequence <= hi as int,
            have ==> exists|j: int|
                0 <= j < k && lineage_tag_match(
                    #[trigger] cat[j],
                    root_name@,
                    root_id as int,
                    tag@,
                ) && cat[j].id.tag_sequence == hi as int,
            !have ==> forall|j: int| #![trigger cat[j]]
                0 <= j < k ==> !lineage_tag_match(cat[j], root_name@, root_id as int, tag@),
        decreases catalog.len() - k,
    {
        if catalog[k].id.root_id == root_id && bytes_eq(&catalog[k].id.root_name, root_name)
            && bytes_eq(&catalog[k].id.tag, tag) {
            proof {
                assert(lineage_tag_match(cat[k as int], root_name@, root_id as int, tag@));
            }
            if !have || catalog[k].id.tag_sequence > hi {
                hi = catalog[k].id.tag_sequence;
            }
            have = true;
        }
        k = k + 1;
    }
    if !have {
        return Some(1);
    }
    if hi == u64::MAX {
        return None;
    }
    Some(hi + 1)
}

} // verus!
