//! The invariant of the model index, stated over plain sequences, and how it
//! survives each elementary change.
use crate::counting::{hash_count, holds_hash, lemma_count_pos, lemma_count_push, lemma_count_remove};
use crate::index::HashEntry;
use crate::record::{is_counted, ModelRecord};
use vstd::prelude::*;

verus! {

pub open spec fn ids_unique<A>(recs: Seq<ModelRecord<A>>) -> bool {
    forall|i: int, j: int| 0 <= i < j < recs.len() ==> (#[trigger] recs[i]).id@ != (#[trigger] recs[j]).id@
}

pub open spec fn hashes_unique<A>(hs: Seq<HashEntry<A>>) -> bool {
    forall|k: int, l: int| 0 <= k < l < hs.len() ==> (#[trigger] hs[k]).hash@ != (#[trigger] hs[l]).hash@
}

pub open spec fn counts_exact<A>(recs: Seq<ModelRecord<A>>, hs: Seq<HashEntry<A>>) -> bool {
    forall|k: int|
        0 <= k < hs.len() ==> (#[trigger] hs[k]).count as nat == hash_count(recs, hs[k].hash@) && hs[k].count > 0
}

pub open spec fn counted_have_entry<A>(recs: Seq<ModelRecord<A>>, hs: Seq<HashEntry<A>>) -> bool {
    forall|i: int|
        0 <= i < recs.len() && is_counted(#[trigger] recs[i]) ==> exists|k: int|
            0 <= k < hs.len() && (#[trigger] hs[k]).hash@ == recs[i].hash@
}

pub open spec fn owners_unique(os: Seq<(usize, String)>) -> bool {
    forall|k: int, l: int| 0 <= k < l < os.len() ==> (#[trigger] os[k]).0 != (#[trigger] os[l]).0
}

/// Some live record has the id of owner entry `e` and belongs to its owner.
pub open spec fn entry_live<A>(recs: Seq<ModelRecord<A>>, e: (usize, String)) -> bool {
    exists|i: int| #![trigger recs[i]] 0 <= i < recs.len() && recs[i].id@ == e.1@ && recs[i].owner_id == Some(e.0)
}

pub open spec fn owners_live<A>(recs: Seq<ModelRecord<A>>, os: Seq<(usize, String)>) -> bool {
    forall|k: int| 0 <= k < os.len() ==> entry_live(recs, #[trigger] os[k])
}

/// The owner index has an entry from the owner of `r` to its id.
pub open spec fn record_listed<A>(os: Seq<(usize, String)>, r: ModelRecord<A>) -> bool {
    exists|k: int| #![trigger os[k]] 0 <= k < os.len() && os[k].0 == r.owner_id->0 && os[k].1@ == r.id@
}

pub open spec fn owned_listed<A>(recs: Seq<ModelRecord<A>>, os: Seq<(usize, String)>) -> bool {
    forall|i: int| 0 <= i < recs.len() && (#[trigger] recs[i]).owner_id is Some ==> record_listed(os, recs[i])
}

pub open spec fn consistent<A>(
    recs: Seq<ModelRecord<A>>,
    hs: Seq<HashEntry<A>>,
    os: Seq<(usize, String)>,
) -> bool {
    &&& ids_unique(recs)
    &&& hashes_unique(hs)
    &&& counts_exact(recs, hs)
    &&& counted_have_entry(recs, hs)
    &&& owners_unique(os)
    &&& owners_live(recs, os)
    &&& owned_listed(recs, os)
}

/// Index in `s` of the element that stands at `k` in `s.remove(at)`.
pub open spec fn skip(k: int, at: int) -> int {
    if k < at {
        k
    } else {
        k + 1
    }
}

pub proof fn lemma_ids_remove<A>(recs: Seq<ModelRecord<A>>, i: int)
    requires
        ids_unique(recs),
        0 <= i < recs.len(),
    ensures
        ids_unique(recs.remove(i)),
{
    let r2 = recs.remove(i);
    assert forall|a: int, b: int| 0 <= a < b < r2.len() implies (#[trigger] r2[a]).id@
        != (#[trigger] r2[b]).id@ by {
        assert(r2[a] == recs[skip(a, i)]);
        assert(r2[b] == recs[skip(b, i)]);
    }
}

pub proof fn lemma_hashes_remove<A>(hs: Seq<HashEntry<A>>, k: int)
    requires
        hashes_unique(hs),
        0 <= k < hs.len(),
    ensures
        hashes_unique(hs.remove(k)),
{
    let h2 = hs.remove(k);
    assert forall|a: int, b: int| 0 <= a < b < h2.len() implies (#[trigger] h2[a]).hash@
        != (#[trigger] h2[b]).hash@ by {
        assert(h2[a] == hs[skip(a, k)]);
        assert(h2[b] == hs[skip(b, k)]);
    }
}

pub proof fn lemma_owners_remove(os: Seq<(usize, String)>, k: int)
    requires
        owners_unique(os),
        0 <= k < os.len(),
    ensures
        owners_unique(os.remove(k)),
{
    let o2 = os.remove(k);
    assert forall|a: int, b: int| 0 <= a < b < o2.len() implies (#[trigger] o2[a]).0
        != (#[trigger] o2[b]).0 by {
        assert(o2[a] == os[skip(a, k)]);
        assert(o2[b] == os[skip(b, k)]);
    }
}

/// Removing the record at `i`, together with the adjusted hash index `hs2`.
pub proof fn lemma_counts_remove<A>(
    recs: Seq<ModelRecord<A>>,
    hs: Seq<HashEntry<A>>,
    i: int,
    hs2: Seq<HashEntry<A>>,
    kh: int,
)
    requires
        counts_exact(recs, hs),
        counted_have_entry(recs, hs),
        hashes_unique(hs),
        0 <= i < recs.len(),
        !is_counted(recs[i]) ==> hs2 == hs,
        is_counted(recs[i]) ==> 0 <= kh < hs.len() && hs[kh].hash@ == recs[i].hash@,
        is_counted(recs[i]) && hs[kh].count == 1 ==> hs2 == hs.remove(kh),
        is_counted(recs[i]) && hs[kh].count != 1 ==> hs2 == hs.update(
            kh,
            HashEntry { count: (hs[kh].count - 1) as usize, ..hs[kh] },
        ),
    ensures
        counts_exact(recs.remove(i), hs2),
        counted_have_entry(recs.remove(i), hs2),
        hashes_unique(hs2),
{
    let r = recs[i];
    let recs2 = recs.remove(i);
    let dropped = is_counted(r) && hs[kh].count == 1;
    assert forall|h: Seq<u8>| #![trigger hash_count(recs2, h)]
        hash_count(recs2, h) + holds_hash(r, h) == hash_count(recs, h) by {
        lemma_count_remove(recs, i, h);
    }
    if dropped {
        lemma_hashes_remove(hs, kh);
    } else if is_counted(r) {
        assert forall|a: int, b: int| 0 <= a < b < hs2.len() implies (#[trigger] hs2[a]).hash@
            != (#[trigger] hs2[b]).hash@ by {
            assert(hs2[a].hash@ == hs[a].hash@);
            assert(hs2[b].hash@ == hs[b].hash@);
        }
    }
    let m = |k: int| if dropped { skip(k, kh) } else { k };
    assert forall|k: int| 0 <= k < hs2.len() implies (#[trigger] hs2[k]).count as nat == hash_count(
        recs2,
        hs2[k].hash@,
    ) && hs2[k].count > 0 by {
        let ok = m(k);
        assert(hs2[k].hash@ == hs[ok].hash@);
        assert(hash_count(recs2, hs[ok].hash@) + holds_hash(r, hs[ok].hash@) == hash_count(recs, hs[ok].hash@));
        if is_counted(r) && ok != kh {
            if ok < kh {
                assert(hs[ok].hash@ != hs[kh].hash@);
            } else {
                assert(hs[kh].hash@ != hs[ok].hash@);
            }
        }
    }
    assert forall|j: int| 0 <= j < recs2.len() && is_counted(#[trigger] recs2[j]) implies exists|k: int|
        0 <= k < hs2.len() && (#[trigger] hs2[k]).hash@ == recs2[j].hash@ by {
        let oj = skip(j, i);
        assert(recs2[j] == recs[oj]);
        let h = recs2[j].hash@;
        let k0 = choose|k: int| 0 <= k < hs.len() && (#[trigger] hs[k]).hash@ == h;
        lemma_count_pos(recs2, h);
        assert(hash_count(recs2, h) > 0);
        if dropped && k0 == kh {
            assert(false);
        } else {
            let nk = if dropped && k0 > kh { k0 - 1 } else { k0 };
            assert(hs2[nk].hash@ == h);
        }
    }
}

/// Removing the record at `i`, together with its owner entry at `ko` when it
/// has an owner.
pub proof fn lemma_owners_after_remove<A>(
    recs: Seq<ModelRecord<A>>,
    os: Seq<(usize, String)>,
    i: int,
    os2: Seq<(usize, String)>,
    ko: int,
)
    requires
        ids_unique(recs),
        owners_unique(os),
        owners_live(recs, os),
        owned_listed(recs, os),
        0 <= i < recs.len(),
        recs[i].owner_id is None ==> os2 == os,
        recs[i].owner_id is Some ==> 0 <= ko < os.len() && os[ko].0 == recs[i].owner_id->0 && os2
            == os.remove(ko),
    ensures
        owners_unique(os2),
        owners_live(recs.remove(i), os2),
        owned_listed(recs.remove(i), os2),
{
    if recs[i].owner_id is Some {
        lemma_owners_remove(os, ko);
    }
    lemma_live_after_remove(recs, os, i, os2, ko);
    lemma_listed_after_remove(recs, os, i, os2, ko);
}

proof fn lemma_live_after_remove<A>(
    recs: Seq<ModelRecord<A>>,
    os: Seq<(usize, String)>,
    i: int,
    os2: Seq<(usize, String)>,
    ko: int,
)
    requires
        ids_unique(recs),
        owners_unique(os),
        owners_live(recs, os),
        owned_listed(recs, os),
        0 <= i < recs.len(),
        recs[i].owner_id is None ==> os2 == os,
        recs[i].owner_id is Some ==> 0 <= ko < os.len() && os[ko].0 == recs[i].owner_id->0 && os2
            == os.remove(ko),
    ensures
        owners_live(recs.remove(i), os2),
{
    let recs2 = recs.remove(i);
    let has = recs[i].owner_id is Some;
    assert forall|k: int| 0 <= k < os2.len() implies entry_live(recs2, #[trigger] os2[k]) by {
        let ok = if has { skip(k, ko) } else { k };
        assert(os2[k] == os[ok]);
        assert(entry_live(recs, os[ok]));
        let oj = choose|j: int|
            #![trigger recs[j]]
            0 <= j < recs.len() && recs[j].id@ == os[ok].1@ && recs[j].owner_id == Some(os[ok].0);
        if oj == i {
            assert(has);
            assert(ok != ko);
            if ok < ko {
                assert(os[ok].0 != os[ko].0);
            } else {
                assert(os[ko].0 != os[ok].0);
            }
            assert(false);
        }
        let j = if oj < i { oj } else { oj - 1 };
        assert(0 <= j < recs2.len());
        assert(recs2[j] == recs[oj]);
        assert(recs2[j].id@ == os2[k].1@);
        assert(recs2[j].owner_id == Some(os2[k].0));
    }
    assert(owners_live(recs2, os2));
}

proof fn lemma_listed_after_remove<A>(
    recs: Seq<ModelRecord<A>>,
    os: Seq<(usize, String)>,
    i: int,
    os2: Seq<(usize, String)>,
    ko: int,
)
    requires
        ids_unique(recs),
        owners_unique(os),
        owners_live(recs, os),
        owned_listed(recs, os),
        0 <= i < recs.len(),
        recs[i].owner_id is None ==> os2 == os,
        recs[i].owner_id is Some ==> 0 <= ko < os.len() && os[ko].0 == recs[i].owner_id->0 && os2
            == os.remove(ko),
    ensures
        owned_listed(recs.remove(i), os2),
{
    let recs2 = recs.remove(i);
    let has = recs[i].owner_id is Some;
    assert forall|j: int| 0 <= j < recs2.len() && (#[trigger] recs2[j]).owner_id is Some implies record_listed(
        os2,
        recs2[j],
    ) by {
        let oj = skip(j, i);
        assert(recs2[j] == recs[oj]);
        assert(record_listed(os, recs[oj]));
        let k0 = choose|k: int|
            #![trigger os[k]]
            0 <= k < os.len() && os[k].0 == recs[oj].owner_id->0 && os[k].1@ == recs[oj].id@;
        if has && k0 == ko {
            if oj < i {
                assert(recs[oj].id@ != recs[i].id@);
            } else {
                assert(recs[i].id@ != recs[oj].id@);
            }
            assert(recs[i].owner_id is Some);
            assert(record_listed(os, recs[i]));
            let ki = choose|k: int|
                #![trigger os[k]]
                0 <= k < os.len() && os[k].0 == recs[i].owner_id->0 && os[k].1@ == recs[i].id@;
            if ki != ko {
                if ki < ko {
                    assert(os[ki].0 != os[ko].0);
                } else {
                    assert(os[ko].0 != os[ki].0);
                }
            }
            assert(false);
        }
        let nk = if has && k0 > ko { k0 - 1 } else { k0 };
        assert(os2[nk] == os[k0]);
    }
}


/// Appending a record whose id is new and which has no owner.
pub proof fn lemma_push_unowned<A>(
    recs: Seq<ModelRecord<A>>,
    os: Seq<(usize, String)>,
    r: ModelRecord<A>,
)
    requires
        ids_unique(recs),
        owners_live(recs, os),
        owned_listed(recs, os),
        r.owner_id is None,
        forall|i: int| 0 <= i < recs.len() ==> (#[trigger] recs[i]).id@ != r.id@,
    ensures
        ids_unique(recs.push(r)),
        owners_live(recs.push(r), os),
        owned_listed(recs.push(r), os),
{
    let recs2 = recs.push(r);
    assert forall|a: int, b: int| 0 <= a < b < recs2.len() implies (#[trigger] recs2[a]).id@
        != (#[trigger] recs2[b]).id@ by {
        if b < recs.len() {
            assert(recs2[a] == recs[a] && recs2[b] == recs[b]);
        } else {
            assert(recs2[a] == recs[a]);
        }
    }
    assert forall|k: int| 0 <= k < os.len() implies entry_live(recs2, #[trigger] os[k]) by {
        assert(entry_live(recs, os[k]));
        let j = choose|j: int|
            #![trigger recs[j]]
            0 <= j < recs.len() && recs[j].id@ == os[k].1@ && recs[j].owner_id == Some(os[k].0);
        assert(recs2[j] == recs[j]);
    }
    assert forall|j: int| 0 <= j < recs2.len() && (#[trigger] recs2[j]).owner_id is Some implies record_listed(
        os,
        recs2[j],
    ) by {
        assert(j < recs.len());
        assert(recs2[j] == recs[j]);
        assert(record_listed(os, recs[j]));
    }
}

/// Appending a counted record, with the hash index adjusted to `hs2`.
pub proof fn lemma_counts_push<A>(
    recs: Seq<ModelRecord<A>>,
    hs: Seq<HashEntry<A>>,
    r: ModelRecord<A>,
    hs2: Seq<HashEntry<A>>,
    kh: int,
)
    requires
        counts_exact(recs, hs),
        counted_have_entry(recs, hs),
        hashes_unique(hs),
        is_counted(r),
        kh < 0 ==> hs2.len() == hs.len() + 1 && hs2.drop_last() == hs && hs2.last().hash@ == r.hash@
            && hs2.last().count == 1 && forall|k: int| 0 <= k < hs.len() ==> (#[trigger] hs[k]).hash@ != r.hash@,
        kh >= 0 ==> kh < hs.len() && hs[kh].hash@ == r.hash@ && hs[kh].count < usize::MAX && hs2 == hs.update(
            kh,
            HashEntry { count: (hs[kh].count + 1) as usize, ..hs[kh] },
        ),
    ensures
        counts_exact(recs.push(r), hs2),
        counted_have_entry(recs.push(r), hs2),
        hashes_unique(hs2),
{
    let recs2 = recs.push(r);
    assert forall|h: Seq<u8>| #![trigger hash_count(recs2, h)]
        hash_count(recs2, h) == hash_count(recs, h) + holds_hash(r, h) by {
        lemma_count_push(recs, r, h);
    }
    if kh < 0 {
        lemma_count_pos(recs, r.hash@);
        if hash_count(recs, r.hash@) > 0 {
            let i = choose|i: int| 0 <= i < recs.len() && is_counted(#[trigger] recs[i]) && recs[i].hash@ == r.hash@;
            let k = choose|k: int| 0 <= k < hs.len() && (#[trigger] hs[k]).hash@ == recs[i].hash@;
            assert(false);
        }
        assert forall|a: int, b: int| 0 <= a < b < hs2.len() implies (#[trigger] hs2[a]).hash@
            != (#[trigger] hs2[b]).hash@ by {
            assert(hs2[a] == hs[a]);
            if b < hs.len() {
                assert(hs2[b] == hs[b]);
            }
        }
    } else {
        assert forall|a: int, b: int| 0 <= a < b < hs2.len() implies (#[trigger] hs2[a]).hash@
            != (#[trigger] hs2[b]).hash@ by {
            assert(hs2[a].hash@ == hs[a].hash@);
            assert(hs2[b].hash@ == hs[b].hash@);
        }
    }
    assert forall|k: int| 0 <= k < hs2.len() implies (#[trigger] hs2[k]).count as nat == hash_count(
        recs2,
        hs2[k].hash@,
    ) && hs2[k].count > 0 by {
        assert(hash_count(recs2, hs2[k].hash@) == hash_count(recs, hs2[k].hash@) + holds_hash(r, hs2[k].hash@));
        if k < hs.len() {
            assert(hs2[k].hash@ == hs[k].hash@);
            if kh < 0 {
                assert(hs2[k] == hs2.drop_last()[k]);
            }
            if kh >= 0 && k != kh {
                if k < kh {
                    assert(hs[k].hash@ != hs[kh].hash@);
                } else {
                    assert(hs[kh].hash@ != hs[k].hash@);
                }
            }
        } else {
            assert(hs2[k] == hs2.last());
            lemma_count_pos(recs, r.hash@);
            if hash_count(recs, r.hash@) > 0 {
                let i = choose|i: int| 0 <= i < recs.len() && is_counted(#[trigger] recs[i]) && recs[i].hash@ == r.hash@;
                let k = choose|k: int| 0 <= k < hs.len() && (#[trigger] hs[k]).hash@ == recs[i].hash@;
                assert(false);
            }
        }
    }
    assert forall|j: int| 0 <= j < recs2.len() && is_counted(#[trigger] recs2[j]) implies exists|k: int|
        0 <= k < hs2.len() && (#[trigger] hs2[k]).hash@ == recs2[j].hash@ by {
        if j < recs.len() {
            assert(recs2[j] == recs[j]);
            let k = choose|k: int| 0 <= k < hs.len() && (#[trigger] hs[k]).hash@ == recs[j].hash@;
            assert(hs2[k].hash@ == hs[k].hash@);
        } else if kh < 0 {
            assert(hs2[hs.len() as int].hash@ == r.hash@);
        } else {
            assert(hs2[kh].hash@ == r.hash@);
        }
    }
}

/// Giving the last record, which had no owner, the owner `o`, which no
/// record had, and adding the owner entry `e` for it.
pub proof fn lemma_claim_owner<A>(
    recs: Seq<ModelRecord<A>>,
    hs: Seq<HashEntry<A>>,
    os: Seq<(usize, String)>,
    r2: ModelRecord<A>,
    e: (usize, String),
)
    requires
        consistent(recs, hs, os),
        recs.len() > 0,
        recs.last().owner_id is None,
        r2 == (ModelRecord { owner_id: Some(e.0), ..recs.last() }),
        e.1@ == r2.id@,
        forall|i: int| 0 <= i < recs.len() ==> (#[trigger] recs[i]).owner_id != Some(e.0),
    ensures
        consistent(recs.drop_last().push(r2), hs, os.push(e)),
{
    let n = recs.len() - 1;
    let recs2 = recs.drop_last().push(r2);
    let os2 = os.push(e);
    assert forall|h: Seq<u8>| #![trigger hash_count(recs2, h)] hash_count(recs2, h) == hash_count(recs, h) by {
        lemma_count_push(recs.drop_last(), r2, h);
        assert(recs2.drop_last() =~= recs.drop_last());
    }
    assert forall|a: int, b: int| 0 <= a < b < recs2.len() implies (#[trigger] recs2[a]).id@
        != (#[trigger] recs2[b]).id@ by {
        assert(recs2[a].id@ == recs[a].id@);
        assert(recs2[b].id@ == recs[b].id@);
    }
    assert forall|j: int| 0 <= j < recs2.len() && is_counted(#[trigger] recs2[j]) implies exists|k: int|
        0 <= k < hs.len() && (#[trigger] hs[k]).hash@ == recs2[j].hash@ by {
        assert(recs2[j].hash@ == recs[j].hash@);
        assert(is_counted(recs[j]));
    }
    assert forall|k: int| 0 <= k < hs.len() implies (#[trigger] hs[k]).count as nat == hash_count(
        recs2,
        hs[k].hash@,
    ) && hs[k].count > 0 by {
        assert(hash_count(recs2, hs[k].hash@) == hash_count(recs, hs[k].hash@));
    }
    assert forall|k: int, l: int| 0 <= k < l < os2.len() implies (#[trigger] os2[k]).0 != (#[trigger] os2[l]).0 by {
        assert(os2[k] == os[k]);
        if l < os.len() {
            assert(os2[l] == os[l]);
        } else {
            assert(entry_live(recs, os[k]));
        }
    }
    assert forall|k: int| 0 <= k < os2.len() implies entry_live(recs2, #[trigger] os2[k]) by {
        if k < os.len() {
            assert(os2[k] == os[k]);
            assert(entry_live(recs, os[k]));
            let j = choose|j: int|
                #![trigger recs[j]]
                0 <= j < recs.len() && recs[j].id@ == os[k].1@ && recs[j].owner_id == Some(os[k].0);
            assert(j != n);
            assert(recs2[j] == recs[j]);
        } else {
            assert(recs2[n] == r2);
        }
    }
    assert forall|j: int| 0 <= j < recs2.len() && (#[trigger] recs2[j]).owner_id is Some implies record_listed(
        os2,
        recs2[j],
    ) by {
        if j < n {
            assert(recs2[j] == recs[j]);
            assert(record_listed(os, recs[j]));
            let k = choose|k: int| #![trigger os[k]] 0 <= k < os.len() && os[k].0 == recs[j].owner_id->0 && os[k].1@ == recs[j].id@;
            assert(os2[k] == os[k]);
        } else {
            assert(os2[os.len() as int] == e);
        }
    }
}

} // verus!
