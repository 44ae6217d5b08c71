use crate::record::{is_counted, ModelRecord};
use vstd::prelude::*;

verus! {

/// 1 when `r` is a counted record with content hash `h`, else 0.
pub open spec fn holds_hash<A>(r: ModelRecord<A>, h: Seq<u8>) -> nat {
    if is_counted(r) && r.hash@ == h {
        1
    } else {
        0
    }
}

/// Number of counted records in `recs` whose content hash is `h`.
pub open spec fn hash_count<A>(recs: Seq<ModelRecord<A>>, h: Seq<u8>) -> nat
    decreases recs.len(),
{
    if recs.len() == 0 {
        0
    } else {
        hash_count(recs.drop_last(), h) + holds_hash(recs.last(), h)
    }
}

pub proof fn lemma_count_push<A>(recs: Seq<ModelRecord<A>>, r: ModelRecord<A>, h: Seq<u8>)
    ensures
        hash_count(recs.push(r), h) == hash_count(recs, h) + holds_hash(r, h),
{
    assert(recs.push(r).drop_last() =~= recs);
}

pub proof fn lemma_count_remove<A>(recs: Seq<ModelRecord<A>>, i: int, h: Seq<u8>)
    requires
        0 <= i < recs.len(),
    ensures
        hash_count(recs.remove(i), h) + holds_hash(recs[i], h) == hash_count(recs, h),
    decreases recs.len(),
{
    if i == recs.len() - 1 {
        assert(recs.remove(i) =~= recs.drop_last());
    } else {
        lemma_count_remove(recs.drop_last(), i, h);
        assert(recs.remove(i).drop_last() =~= recs.drop_last().remove(i));
        assert(recs.remove(i).last() == recs.last());
    }
}

pub proof fn lemma_count_le<A>(recs: Seq<ModelRecord<A>>, h: Seq<u8>)
    ensures
        hash_count(recs, h) <= recs.len(),
    decreases recs.len(),
{
    if recs.len() > 0 {
        lemma_count_le(recs.drop_last(), h);
    }
}

/// The count is positive exactly when some counted record carries the hash.
pub proof fn lemma_count_pos<A>(recs: Seq<ModelRecord<A>>, h: Seq<u8>)
    ensures
        hash_count(recs, h) > 0 <==> exists|i: int|
            0 <= i < recs.len() && is_counted(#[trigger] recs[i]) && recs[i].hash@ == h,
    decreases recs.len(),
{
    if recs.len() > 0 {
        lemma_count_pos(recs.drop_last(), h);
        if hash_count(recs.drop_last(), h) > 0 {
            let i = choose|i: int|
                0 <= i < recs.drop_last().len() && is_counted(#[trigger] recs.drop_last()[i])
                    && recs.drop_last()[i].hash@ == h;
            assert(recs[i] == recs.drop_last()[i]);
        }
        if exists|i: int| 0 <= i < recs.len() && is_counted(#[trigger] recs[i]) && recs[i].hash@ == h {
            let i = choose|i: int|
                0 <= i < recs.len() && is_counted(#[trigger] recs[i]) && recs[i].hash@ == h;
            if i < recs.len() - 1 {
                assert(recs.drop_last()[i] == recs[i]);
            }
        }
    }
}

} // verus!
