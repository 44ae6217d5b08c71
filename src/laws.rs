//! Properties that hold across the store's operations.
use crate::counting::{hash_count, holds_hash, lemma_count_pos, lemma_count_push, lemma_count_remove};
use crate::index::{after_eviction, after_owner_retired, ids_contain, ModelIndex};
use crate::record::{is_counted, ModelRecord};
use vstd::prelude::*;

verus! {

/// The hash index has an entry for a content hash exactly when some live
/// deduplicated record carries that hash, and its count is the number of
/// such records.
pub proof fn law_hash_entry_iff_referenced<A>(s: ModelIndex<A>, h: Seq<u8>)
    requires
        s.wf(),
    ensures
        s.has_hash_entry(h) <==> exists|i: int|
            0 <= i < s.records().len() && is_counted(#[trigger] s.records()[i]) && s.records()[i].hash@ == h,
        s.refcount(h) == hash_count(s.records(), h),
{
    s.lemma_refcount(h);
    lemma_count_pos(s.records(), h);
}

/// Two live deduplicated records with the same content hash resolve to one
/// and the same artifact.
pub proof fn law_same_hash_shares_artifact<A>(s: ModelIndex<A>, i: int, j: int)
    requires
        s.wf(),
        0 <= i < s.records().len(),
        0 <= j < s.records().len(),
        is_counted(s.records()[i]),
        is_counted(s.records()[j]),
        s.records()[i].hash@ == s.records()[j].hash@,
    ensures
        s.artifact_of(s.records()[i]) == s.artifact_of(s.records()[j]),
{
}

/// Uploading content that is already live adds one reference to its hash,
/// and deleting one of the records that share it takes exactly one away.
pub proof fn law_upload_and_delete_refcount<A>(
    recs: Seq<ModelRecord<A>>,
    rec: ModelRecord<A>,
    i: int,
)
    requires
        is_counted(rec),
        0 <= i < recs.len(),
        is_counted(recs[i]),
        recs[i].hash@ == rec.hash@,
    ensures
        hash_count(recs.push(rec), rec.hash@) == hash_count(recs, rec.hash@) + 1,
        hash_count(recs.remove(i), rec.hash@) + 1 == hash_count(recs, rec.hash@),
{
    lemma_count_push(recs, rec, rec.hash@);
    lemma_count_remove(recs, i, rec.hash@);
}

/// With a nonzero limit that the store respects, every outcome of an
/// insertion respects it too: the index after the eviction step, and that
/// index with one owner's record retired and one record appended.
pub proof fn law_capacity_respected<A>(
    recs: Seq<ModelRecord<A>>,
    limit: usize,
    owner: Option<usize>,
    rec: ModelRecord<A>,
)
    requires
        limit != 0,
        recs.len() <= limit,
    ensures
        after_eviction(recs, limit).len() <= limit,
        after_owner_retired(after_eviction(recs, limit), owner).push(rec).len() <= limit,
{
}

/// Deletion never raises the number of live records.
pub proof fn law_delete_shrinks<A>(recs: Seq<ModelRecord<A>>, i: int)
    requires
        0 <= i < recs.len(),
    ensures
        recs.remove(i).len() < recs.len(),
{
}

/// Re-uploading under an owner retires the owner's previous record: its id
/// is no longer live, and its content hash loses one reference unless the
/// new upload carries the same content.
pub proof fn law_owner_supersedes<A>(s: ModelIndex<A>, o: usize, i: int, rec: ModelRecord<A>)
    requires
        s.wf(),
        0 <= i < s.records().len(),
        s.records()[i].owner_id == Some(o),
        rec.id@ != s.records()[i].id@,
    ensures
        !ids_contain(after_owner_retired(s.records(), Some(o)).push(rec), s.records()[i].id@),
        hash_count(after_owner_retired(s.records(), Some(o)).push(rec), s.records()[i].hash@)
            == hash_count(s.records(), s.records()[i].hash@) - holds_hash(s.records()[i], s.records()[i].hash@)
            + holds_hash(rec, s.records()[i].hash@),
{
    let recs = s.records();
    let c = choose|j: int| 0 <= j < recs.len() && (#[trigger] recs[j]).owner_id == Some(o);
    s.lemma_owner_unique(c, i);
    s.lemma_ids_unique();
    let after = recs.remove(i);
    assert(after_owner_retired(recs, Some(o)) == after);
    lemma_count_remove(recs, i, recs[i].hash@);
    lemma_count_push(after, rec, recs[i].hash@);
    if ids_contain(after.push(rec), recs[i].id@) {
        let j = choose|j: int| 0 <= j < after.push(rec).len() && (#[trigger] after.push(rec)[j]).id@ == recs[i].id@;
        if j < after.len() {
            let oj = if j < i { j } else { j + 1 };
            assert(after[j] == recs[oj]);
        }
    }
}

/// After a record is removed, its id is gone, its owner has no model, and
/// its content hash has one reference fewer; two well-formed indices with the
/// same records agree on every reference count and every owner entry.
pub proof fn law_delete_clears_all_indices<A>(s: ModelIndex<A>, t: ModelIndex<A>, i: int)
    requires
        s.wf(),
        t.wf(),
        0 <= i < s.records().len(),
        t.records() == s.records().remove(i),
    ensures
        !ids_contain(t.records(), s.records()[i].id@),
        s.records()[i].owner_id matches Some(o) ==> t.owner_model(o) is None,
        forall|h: Seq<u8>|
            #[trigger] t.refcount(h) + holds_hash(s.records()[i], h) == s.refcount(h),
{
    let recs = s.records();
    s.lemma_ids_unique();
    if ids_contain(t.records(), recs[i].id@) {
        let j = choose|j: int| 0 <= j < t.records().len() && (#[trigger] t.records()[j]).id@ == recs[i].id@;
        let oj = if j < i { j } else { j + 1 };
        assert(t.records()[j] == recs[oj]);
    }
    if let Some(o) = recs[i].owner_id {
        t.lemma_owner(o);
        if t.owner_model(o) is Some {
            let j = choose|j: int| 0 <= j < t.records().len() && (#[trigger] t.records()[j]).owner_id == Some(o);
            let oj = if j < i { j } else { j + 1 };
            assert(t.records()[j] == recs[oj]);
            s.lemma_owner_unique(oj, i);
        }
    }
    assert forall|h: Seq<u8>| #[trigger] t.refcount(h) + holds_hash(recs[i], h) == s.refcount(h) by {
        s.lemma_refcount(h);
        t.lemma_refcount(h);
        lemma_count_remove(recs, i, h);
    }
}

/// The observable indices are a function of the live records: two
/// well-formed indices with the same records report the same reference
/// counts and the same owner entries.
pub proof fn law_indices_follow_records<A>(s: ModelIndex<A>, t: ModelIndex<A>)
    requires
        s.wf(),
        t.wf(),
        s.records() == t.records(),
    ensures
        forall|h: Seq<u8>| #[trigger] s.refcount(h) == t.refcount(h),
        forall|o: usize| #[trigger] s.owner_model(o) == t.owner_model(o),
{
    assert forall|h: Seq<u8>| #[trigger] s.refcount(h) == t.refcount(h) by {
        s.lemma_refcount(h);
        t.lemma_refcount(h);
    }
    assert forall|o: usize| #[trigger] s.owner_model(o) == t.owner_model(o) by {
        s.lemma_owner(o);
        t.lemma_owner(o);
        if s.owner_model(o) is Some {
            let j = choose|j: int| 0 <= j < s.records().len() && (#[trigger] s.records()[j]).owner_id == Some(o);
            assert(t.records()[j].owner_id == Some(o));
        }
    }
}

} // verus!
