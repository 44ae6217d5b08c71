use crate::consistency::{
    consistent, record_listed, lemma_counts_remove, lemma_ids_remove, lemma_owners_after_remove, skip,
};
use crate::counting::{hash_count, lemma_count_le, lemma_count_pos, lemma_count_push};
use crate::consistency::{lemma_claim_owner, lemma_counts_push, lemma_push_unowned};
use crate::record::{is_counted, LoadContext, ModelRecord, TensorFacts};
use vstd::prelude::*;

verus! {

/// Why an insertion failed.
#[derive(Debug)]
pub enum StoreError {
    /// Sealing or unsealing the model failed.
    PersistenceFailure(String),
    /// The model bytes could not be turned into an artifact.
    LoadFailure(String),
    /// A model with the requested id already exists.
    IdentityCollision,
}

/// Whether some record of `recs` has id `id`.
pub open spec fn ids_contain<A>(recs: Seq<ModelRecord<A>>, id: Seq<char>) -> bool {
    exists|i: int| 0 <= i < recs.len() && (#[trigger] recs[i]).id@ == id
}

/// The records left after making room for one more under `limit`
/// (0 means unbounded): the oldest goes when the store is full.
pub open spec fn after_eviction<A>(recs: Seq<ModelRecord<A>>, limit: usize) -> Seq<ModelRecord<A>> {
    if limit != 0 && recs.len() >= limit {
        recs.remove(0)
    } else {
        recs
    }
}

/// The records left after the live record of `owner`, if any, is retired.
pub open spec fn after_owner_retired<A>(recs: Seq<ModelRecord<A>>, owner: Option<usize>) -> Seq<
    ModelRecord<A>,
> {
    if owner is Some && exists|i: int| 0 <= i < recs.len() && (#[trigger] recs[i]).owner_id == owner {
        recs.remove(choose|i: int| 0 <= i < recs.len() && (#[trigger] recs[i]).owner_id == owner)
    } else {
        recs
    }
}

/// The records left once the record with id `id`, if any, is removed.
pub open spec fn without_id<A>(recs: Seq<ModelRecord<A>>, id: Seq<char>) -> Seq<ModelRecord<A>> {
    if ids_contain(recs, id) {
        recs.remove(choose|i: int| 0 <= i < recs.len() && (#[trigger] recs[i]).id@ == id)
    } else {
        recs
    }
}

/// One entry of the deduplication index: how many live counted records have
/// this content hash, and the parsed artifact they share.
pub struct HashEntry<A> {
    pub hash: Vec<u8>,
    pub count: usize,
    pub artifact: A,
}

/// The three indices over the live models, kept consistent by every method.
///
/// `records` is the id index, oldest insertion first; `owners` maps an owner
/// id to the id of its live model; `hashes` is the deduplication index.
pub struct ModelIndex<A> {
    records: Vec<ModelRecord<A>>,
    owners: Vec<(usize, String)>,
    hashes: Vec<HashEntry<A>>,
}

/// A copy of `b`.
pub fn copy_bytes(b: &[u8]) -> (r: Vec<u8>)
    ensures
        r@ == b@,
{
    let mut r: Vec<u8> = Vec::new();
    let mut i: usize = 0;
    while i < b.len()
        invariant
            0 <= i <= b@.len(),
            r@ == b@.subrange(0, i as int),
        decreases b@.len() - i,
    {
        r.push(b[i]);
        i = i + 1;
        assert(r@ =~= b@.subrange(0, i as int));
    }
    assert(b@ =~= b@.subrange(0, b@.len() as int));
    r
}

/// Whether two byte sequences are equal, compared element by element.
pub fn bytes_equal(a: &[u8], b: &[u8]) -> (r: bool)
    ensures
        r == (a@ == b@),
{
    if a.len() != b.len() {
        return false;
    }
    let mut i: usize = 0;
    while i < a.len()
        invariant
            a@.len() == b@.len(),
            0 <= i <= a@.len(),
            forall|j: int| 0 <= j < i ==> a@[j] == b@[j],
        decreases a@.len() - i,
    {
        if a[i] != b[i] {
            return false;
        }
        i = i + 1;
    }
    assert(a@ =~= b@);
    true
}

impl<A> ModelIndex<A> {
    /// The live records, oldest first.
    pub closed spec fn records(&self) -> Seq<ModelRecord<A>> {
        self.records@
    }

    /// The ids of the live records, oldest first.
    pub open spec fn ids(&self) -> Seq<Seq<char>> {
        self.records().map_values(|r: ModelRecord<A>| r.id@)
    }

    pub open spec fn has_id(&self, id: Seq<char>) -> bool {
        exists|i: int| 0 <= i < self.records().len() && (#[trigger] self.records()[i]).id@ == id
    }

    /// The live record with id `id` (meaningful only when there is one).
    pub closed spec fn record_with_id(&self, id: Seq<char>) -> ModelRecord<A> {
        self.records()[choose|i: int| 0 <= i < self.records().len() && (#[trigger] self.records()[i]).id@ == id]
    }

    /// `record_with_id` is the live record that has that id.
    pub proof fn lemma_record_with_id(&self, id: Seq<char>)
        requires
            ids_contain(self.records(), id),
        ensures
            exists|i: int|
                0 <= i < self.records().len() && self.records()[i] == self.record_with_id(id)
                    && (#[trigger] self.records()[i]).id@ == id,
            self.record_with_id(id).id@ == id,
    {
    }

    /// Whether the deduplication index has an entry for `h`.
    pub closed spec fn has_hash_entry(&self, h: Seq<u8>) -> bool {
        exists|k: int| 0 <= k < self.hashes@.len() && (#[trigger] self.hashes@[k]).hash@ == h
    }

    closed spec fn hash_slot(&self, h: Seq<u8>) -> int {
        choose|k: int| 0 <= k < self.hashes@.len() && (#[trigger] self.hashes@[k]).hash@ == h
    }

    /// The reference count stored for `h`, or 0 without an entry.
    pub closed spec fn refcount(&self, h: Seq<u8>) -> nat {
        if self.has_hash_entry(h) {
            self.hashes@[self.hash_slot(h)].count as nat
        } else {
            0
        }
    }

    /// The shared artifact stored for `h` (meaningful only with an entry).
    pub closed spec fn shared_artifact(&self, h: Seq<u8>) -> A {
        self.hashes@[self.hash_slot(h)].artifact
    }

    /// The id that the owner index holds for `o`.
    pub closed spec fn owner_model(&self, o: usize) -> Option<Seq<char>> {
        if exists|k: int| 0 <= k < self.owners@.len() && (#[trigger] self.owners@[k]).0 == o {
            let k = choose|k: int| 0 <= k < self.owners@.len() && (#[trigger] self.owners@[k]).0 == o;
            Some(self.owners@[k].1@)
        } else {
            None
        }
    }

    /// The artifact that a record resolves to.
    pub open spec fn artifact_of(&self, r: ModelRecord<A>) -> A {
        if is_counted(r) {
            self.shared_artifact(r.hash@)
        } else {
            r.own_artifact->0
        }
    }

    /// The consistency invariant of the three indices.
    pub closed spec fn wf(&self) -> bool {
        consistent(self.records@, self.hashes@, self.owners@)
    }

    /// The stored reference count of every hash is the number of live
    /// counted records carrying it.
    pub proof fn lemma_refcount(&self, h: Seq<u8>)
        requires
            self.wf(),
        ensures
            self.refcount(h) == hash_count(self.records(), h),
            self.has_hash_entry(h) <==> hash_count(self.records(), h) > 0,
    {
        lemma_count_pos(self.records@, h);
        if self.has_hash_entry(h) {
            let k = self.hash_slot(h);
            assert(self.hashes@[k].count > 0);
        } else if hash_count(self.records@, h) > 0 {
            let i = choose|i: int|
                0 <= i < self.records@.len() && is_counted(#[trigger] self.records@[i])
                    && self.records@[i].hash@ == h;
            assert(is_counted(self.records@[i]));
        }
    }

    /// The owner index names, for each owner, the id of its one live record.
    pub proof fn lemma_owner(&self, o: usize)
        requires
            self.wf(),
        ensures
            self.owner_model(o) is Some <==> exists|i: int|
                0 <= i < self.records().len() && (#[trigger] self.records()[i]).owner_id == Some(o),
            forall|i: int|
                0 <= i < self.records().len() && (#[trigger] self.records()[i]).owner_id == Some(o)
                    ==> self.owner_model(o) == Some(self.records()[i].id@),
    {
        let os = self.owners@;
        let recs = self.records@;
        if exists|k: int| 0 <= k < os.len() && (#[trigger] os[k]).0 == o {
            let k = choose|k: int| 0 <= k < os.len() && (#[trigger] os[k]).0 == o;
            assert(os[k].0 == o);
        }
        assert forall|i: int|
            0 <= i < recs.len() && (#[trigger] recs[i]).owner_id == Some(o) implies self.owner_model(o)
                == Some(recs[i].id@) by {
            assert(recs[i].owner_id is Some);
            let k = choose|k: int|
                0 <= k < os.len() && (#[trigger] os[k]).0 == recs[i].owner_id->0 && os[k].1@
                    == recs[i].id@;
            let k2 = choose|k: int| 0 <= k < os.len() && (#[trigger] os[k]).0 == o;
            if k != k2 {
                if k < k2 {
                    assert(os[k].0 != os[k2].0);
                } else {
                    assert(os[k2].0 != os[k].0);
                }
            }
        }
    }

    pub fn new() -> (r: Self)
        ensures
            r.wf(),
            r.records() == Seq::<ModelRecord<A>>::empty(),
    {
        ModelIndex { records: Vec::new(), owners: Vec::new(), hashes: Vec::new() }
    }

    pub fn len(&self) -> (r: usize)
        ensures
            r == self.records().len(),
    {
        self.records.len()
    }

    /// Position of the record with id `id`.
    pub fn position_of(&self, id: &String) -> (r: Option<usize>)
        requires
            self.wf(),
        ensures
            r is None <==> !self.has_id(id@),
            r matches Some(i) ==> i < self.records().len() && self.records()[i as int].id@ == id@,
    {
        let mut i: usize = 0;
        while i < self.records.len()
            invariant
                0 <= i <= self.records@.len(),
                forall|j: int| 0 <= j < i ==> (#[trigger] self.records@[j]).id@ != id@,
            decreases self.records@.len() - i,
        {
            if self.records[i].id == *id {
                return Some(i);
            }
            i = i + 1;
        }
        None
    }

    fn hash_position(&self, h: &[u8]) -> (r: Option<usize>)
        ensures
            r is None <==> !self.has_hash_entry(h@),
            r matches Some(k) ==> k < self.hashes@.len() && self.hashes@[k as int].hash@ == h@,
    {
        let mut k: usize = 0;
        while k < self.hashes.len()
            invariant
                0 <= k <= self.hashes@.len(),
                forall|j: int| 0 <= j < k ==> (#[trigger] self.hashes@[j]).hash@ != h@,
            decreases self.hashes@.len() - k,
        {
            if bytes_equal(self.hashes[k].hash.as_slice(), h) {
                return Some(k);
            }
            k = k + 1;
        }
        None
    }

    fn owner_position(&self, o: usize) -> (r: Option<usize>)
        ensures
            r is None <==> !(exists|k: int|
                0 <= k < self.owners@.len() && (#[trigger] self.owners@[k]).0 == o),
            r matches Some(k) ==> k < self.owners@.len() && self.owners@[k as int].0 == o,
    {
        let mut k: usize = 0;
        while k < self.owners.len()
            invariant
                0 <= k <= self.owners@.len(),
                forall|j: int| 0 <= j < k ==> (#[trigger] self.owners@[j]).0 != o,
            decreases self.owners@.len() - k,
        {
            if self.owners[k].0 == o {
                return Some(k);
            }
            k = k + 1;
        }
        None
    }

    /// Removes the record at position `i` from all three indices: its owner
    /// entry goes, and its hash entry is decremented, and dropped at zero.
    pub fn retire_at(&mut self, i: usize) -> (rec: ModelRecord<A>)
        requires
            old(self).wf(),
            i < old(self).records().len(),
        ensures
            final(self).wf(),
            final(self).records() == old(self).records().remove(i as int),
            rec == old(self).records()[i as int],
            forall|h: Seq<u8>|
                #![trigger final(self).has_hash_entry(h)]
                final(self).has_hash_entry(h) ==> old(self).has_hash_entry(h)
                    && final(self).shared_artifact(h) == old(self).shared_artifact(h),
    {
        let ghost old_recs = self.records@;
        let ghost old_hs = self.hashes@;
        let ghost old_os = self.owners@;
        let rec = self.records.remove(i);
        // owner index
        let ghost mut ko: int = -1;
        if let Some(o) = rec.owner_id {
            proof {
                assert(old_recs[i as int].owner_id is Some);
                assert(record_listed(old_os, old_recs[i as int]));
                let kk = choose|k: int|
                    #![trigger old_os[k]]
                    0 <= k < old_os.len() && old_os[k].0 == o && old_os[k].1@ == old_recs[i as int].id@;
                assert(old_os[kk].0 == o);
            }
            let k = self.owner_position(o);
            if let Some(k) = k {
                proof {
                    ko = k as int;
                }
                self.owners.remove(k);
            }
        }
        // hash index
        let ghost mut kh: int = -1;
        if rec.own_artifact.is_none() {
            proof {
                assert(is_counted(old_recs[i as int]));
                let kk = choose|k: int| 0 <= k < old_hs.len() && (#[trigger] old_hs[k]).hash@ == rec.hash@;
                assert(old_hs[kk].hash@ == rec.hash@);
            }
            let k = self.hash_position(rec.hash.as_slice());
            if let Some(k) = k {
                proof {
                    kh = k as int;
                }
                if self.hashes[k].count == 1 {
                    self.hashes.remove(k);
                } else {
                    let mut e = self.hashes.remove(k);
                    e.count = e.count - 1;
                    self.hashes.insert(k, e);
                    assert(self.hashes@ =~= old_hs.update(
                        kh,
                        HashEntry { count: (old_hs[kh].count - 1) as usize, ..old_hs[kh] },
                    ));
                }
            }
        }
        proof {
            assert(self.records@ =~= old_recs.remove(i as int));
            lemma_ids_remove(old_recs, i as int);
            lemma_counts_remove(old_recs, old_hs, i as int, self.hashes@, kh);
            lemma_owners_after_remove(old_recs, old_os, i as int, self.owners@, ko);
            let dropped = kh >= 0 && old_hs[kh].count == 1;
            assert forall|h: Seq<u8>|
                #![trigger self.has_hash_entry(h)]
                self.has_hash_entry(h) implies old(self).has_hash_entry(h)
                    && self.shared_artifact(h) == old(self).shared_artifact(h) by {
                let k = self.hash_slot(h);
                let ok = if dropped { skip(k, kh) } else { k };
                assert(old_hs[ok].hash@ == h);
                assert(old_hs[ok].artifact == self.hashes@[k].artifact);
                let ok2 = old(self).hash_slot(h);
                if ok != ok2 {
                    if ok < ok2 {
                        assert(old_hs[ok].hash@ != old_hs[ok2].hash@);
                    } else {
                        assert(old_hs[ok2].hash@ != old_hs[ok].hash@);
                    }
                }
            }
        }
        rec
    }

    /// Live ids are pairwise distinct.
    pub proof fn lemma_ids_unique(&self)
        requires
            self.wf(),
        ensures
            forall|i: int, j: int|
                0 <= i < self.records().len() && 0 <= j < self.records().len() && i != j
                    ==> (#[trigger] self.records()[i]).id@ != (#[trigger] self.records()[j]).id@,
    {
        assert forall|i: int, j: int|
            0 <= i < self.records().len() && 0 <= j < self.records().len() && i != j implies (#[trigger] self.records()[i]).id@
                != (#[trigger] self.records()[j]).id@ by {
            if i < j {
                assert(self.records@[i].id@ != self.records@[j].id@);
            } else {
                assert(self.records@[j].id@ != self.records@[i].id@);
            }
        }
    }

    /// Two live records never share an owner.
    pub proof fn lemma_owner_unique(&self, i: int, j: int)
        requires
            self.wf(),
            0 <= i < self.records().len(),
            0 <= j < self.records().len(),
            self.records()[i].owner_id is Some,
            self.records()[i].owner_id == self.records()[j].owner_id,
        ensures
            i == j,
    {
        self.lemma_owner(self.records()[i].owner_id->0);
        if i < j {
            assert(self.records@[i].id@ != self.records@[j].id@);
        } else if j < i {
            assert(self.records@[j].id@ != self.records@[i].id@);
        }
    }

    /// Position of the live record that belongs to `o`.
    fn owned_position(&self, o: usize) -> (r: Option<usize>)
        ensures
            r is None <==> !(exists|i: int|
                0 <= i < self.records().len() && (#[trigger] self.records()[i]).owner_id == Some(o)),
            r matches Some(i) ==> i < self.records().len() && self.records()[i as int].owner_id == Some(o),
    {
        let mut i: usize = 0;
        while i < self.records.len()
            invariant
                0 <= i <= self.records@.len(),
                forall|j: int| 0 <= j < i ==> (#[trigger] self.records@[j]).owner_id != Some(o),
            decreases self.records@.len() - i,
        {
            if self.records[i].owner_id == Some(o) {
                return Some(i);
            }
            i = i + 1;
        }
        None
    }

    /// Appends a counted record without owner; `fresh` is the artifact for a
    /// content hash that has no entry yet.
    fn push_counted(&mut self, rec: ModelRecord<A>, fresh: Option<A>)
        requires
            old(self).wf(),
            is_counted(rec),
            rec.owner_id is None,
            !ids_contain(old(self).records(), rec.id@),
            fresh is Some <==> !old(self).has_hash_entry(rec.hash@),
            old(self).records().len() < usize::MAX,
        ensures
            final(self).wf(),
            final(self).records() == old(self).records().push(rec),
            fresh matches Some(a) ==> final(self).shared_artifact(rec.hash@) == a,
            forall|h: Seq<u8>|
                #![trigger old(self).has_hash_entry(h)]
                old(self).has_hash_entry(h) ==> final(self).shared_artifact(h) == old(self).shared_artifact(h),
    {
        let ghost old_recs = self.records@;
        let ghost old_hs = self.hashes@;
        let ghost mut kh: int = -1;
        match self.hash_position(rec.hash.as_slice()) {
            Some(k) => {
                proof {
                    kh = k as int;
                    lemma_count_le(old_recs, rec.hash@);
                }
                let mut e = self.hashes.remove(k);
                e.count = e.count + 1;
                self.hashes.insert(k, e);
                assert(self.hashes@ =~= old_hs.update(
                    kh,
                    HashEntry { count: (old_hs[kh].count + 1) as usize, ..old_hs[kh] },
                ));
            },
            None => {
                if let Some(a) = fresh {
                    let h = copy_bytes(rec.hash.as_slice());
                    self.hashes.push(HashEntry { hash: h, count: 1, artifact: a });
                    assert(self.hashes@.drop_last() =~= old_hs);
                }
            },
        }
        self.records.push(rec);
        proof {
            lemma_counts_push(old_recs, old_hs, rec, self.hashes@, kh);
            lemma_push_unowned(old_recs, self.owners@, rec);
            let hs = self.hashes@;
            assert forall|h: Seq<u8>|
                #![trigger old(self).has_hash_entry(h)]
                old(self).has_hash_entry(h) implies self.shared_artifact(h) == old(self).shared_artifact(h) by {
                let ok = old(self).hash_slot(h);
                assert(hs[ok].hash@ == h);
                let k = self.hash_slot(h);
                if k != ok {
                    if k < ok {
                        assert(hs[k].hash@ != hs[ok].hash@);
                    } else {
                        assert(hs[ok].hash@ != hs[k].hash@);
                    }
                }
            }
            if kh < 0 {
                let k = self.hash_slot(rec.hash@);
                assert(hs[old_hs.len() as int].hash@ == rec.hash@);
                if k != old_hs.len() {
                    assert(hs[k].hash@ != hs[old_hs.len() as int].hash@);
                }
            }
        }
    }

    /// Gives the newest record, which has no owner, the owner `o`.
    fn claim_owner(&mut self, o: usize)
        requires
            old(self).wf(),
            old(self).records().len() > 0,
            old(self).records().last().owner_id is None,
            forall|i: int|
                0 <= i < old(self).records().len() ==> (#[trigger] old(self).records()[i]).owner_id != Some(o),
        ensures
            final(self).wf(),
            final(self).records() == old(self).records().drop_last().push(
                ModelRecord { owner_id: Some(o), ..old(self).records().last() },
            ),
            final(self).hashes@ == old(self).hashes@,
    {
        let ghost old_recs = self.records@;
        let ghost old_os = self.owners@;
        match self.records.pop() {
            Some(mut rec) => {
                rec.owner_id = Some(o);
                let id = rec.id.clone();
                self.records.push(rec);
                self.owners.push((o, id));
                proof {
                    assert(rec == (ModelRecord { owner_id: Some(o), ..old_recs.last() }));
                    lemma_claim_owner(old_recs, self.hashes@, old_os, rec, (o, id));
                    assert(self.records@ =~= old_recs.drop_last().push(rec));
                }
            },
            None => {},
        }
    }

    /// Appends `rec` under `owner_id`, retiring the owner's previous record.
    #[verifier::rlimit(80)]
    fn commit(&mut self, rec: ModelRecord<A>, owner_id: Option<usize>, fresh: Option<A>)
        requires
            old(self).wf(),
            is_counted(rec),
            rec.owner_id is None,
            !ids_contain(old(self).records(), rec.id@),
            fresh is Some <==> !old(self).has_hash_entry(rec.hash@),
            old(self).records().len() < usize::MAX,
        ensures
            final(self).wf(),
            final(self).records() == after_owner_retired(old(self).records(), owner_id).push(
                ModelRecord { owner_id, ..rec },
            ),
            old(self).has_hash_entry(rec.hash@) ==> final(self).shared_artifact(rec.hash@)
                == old(self).shared_artifact(rec.hash@),
            fresh matches Some(a) ==> final(self).shared_artifact(rec.hash@) == a,
    {
        let ghost r0 = self.records@;
        let ghost s0 = *self;
        let ghost rec0 = rec;
        proof {
            s0.lemma_refcount(rec.hash@);
        }
        let prev: Option<usize> = match owner_id {
            Some(o) => self.owned_position(o),
            None => None,
        };
        let ghost rec0 = rec;
        self.push_counted(rec, fresh);
        let ghost s1 = *self;
        proof {
            if hash_count(r0, rec0.hash@) > 0 {
                assert(s0.has_hash_entry(rec0.hash@));
                assert(s1.shared_artifact(rec0.hash@) == s0.shared_artifact(rec0.hash@));
            }
        }
        if let Some(j) = prev {
            self.retire_at(j);
            proof {
                let r = self.records@;
                assert(r[r.len() - 1] == rec0);
                assert(is_counted(rec0));
                lemma_count_pos(r, rec0.hash@);
                self.lemma_refcount(rec0.hash@);
                assert(self.has_hash_entry(rec0.hash@));
                assert(self.shared_artifact(rec0.hash@) == s1.shared_artifact(rec0.hash@));
            }
            proof {
                assert(self.records@ =~= r0.remove(j as int).push(rec0));
            }
        } else {
            proof {
                assert(self.records@ =~= r0.push(rec0));
            }
        }
        let ghost r2 = self.records@;
        if let Some(o) = owner_id {
            proof {
                assert forall|i: int| 0 <= i < r2.len() implies (#[trigger] r2[i]).owner_id != Some(o) by {
                    if i < r2.len() - 1 {
                        if r2[i].owner_id == Some(o) {
                            let oi = skip(i, prev->0 as int);
                            assert(r2[i] == r0[oi]);
                            s0.lemma_owner_unique(oi, prev->0 as int);
                        }
                    }
                }
            }
            self.claim_owner(o);
        }
        proof {
            let newrec = ModelRecord { owner_id, ..rec0 };
            if owner_id is Some {
                assert(self.records@ =~= r2.drop_last().push(newrec));
            }
            let aor = after_owner_retired(r0, owner_id);
            if prev is Some {
                let c = choose|i: int| 0 <= i < r0.len() && (#[trigger] r0[i]).owner_id == owner_id;
                s0.lemma_owner_unique(c, prev->0 as int);
                assert(aor == r0.remove(prev->0 as int));
            } else {
                assert(aor == r0);
            }
            assert(self.records@ =~= aor.push(newrec));

        }
    }

    /// Inserts a model through the deduplicating path.
    ///
    /// In order: when a nonzero `limit` is reached the oldest record is
    /// retired; the content hash is looked up, and only when no live record
    /// shares it is `load` called for a fresh artifact; an id already present
    /// is refused; the record is appended, and the previous record of its
    /// owner, if any, is retired. A failed load or a refused id leaves the
    /// index as it stood after the eviction.
    #[verifier::rlimit(50)]
    pub fn add_model<F>(
        &mut self,
        limit: usize,
        id: String,
        name: Option<String>,
        hash: Vec<u8>,
        input_facts: Vec<TensorFacts>,
        output_facts: Vec<TensorFacts>,
        optim: bool,
        context: LoadContext,
        owner_id: Option<usize>,
        load: F,
    ) -> (r: Result<(), StoreError>) where F: FnOnce() -> Result<A, String>
        requires
            old(self).wf(),
            load.requires(()),
            old(self).records().len() < usize::MAX,
        ensures
            final(self).wf(),
            r matches Err(StoreError::LoadFailure(_)) ==> hash_count(
                after_eviction(old(self).records(), limit),
                hash@,
            ) == 0 && final(self).records() == after_eviction(old(self).records(), limit),
            r matches Err(StoreError::IdentityCollision) ==> ids_contain(
                after_eviction(old(self).records(), limit),
                id@,
            ) && final(self).records() == after_eviction(old(self).records(), limit),
            !(r is Err && r->Err_0 is LoadFailure) ==> (r is Ok <==> !ids_contain(
                after_eviction(old(self).records(), limit),
                id@,
            )),
            hash_count(after_eviction(old(self).records(), limit), hash@) > 0 ==> !(r is Err
                && r->Err_0 is LoadFailure),
            !(r is Err && r->Err_0 is PersistenceFailure),
            r is Ok ==> final(self).records() == after_owner_retired(
                after_eviction(old(self).records(), limit),
                owner_id,
            ).push(
                ModelRecord {
                    id,
                    name,
                    hash,
                    owner_id,
                    input_facts,
                    output_facts,
                    optim,
                    context,
                    own_artifact: None,
                },
            ),
            r is Ok && hash_count(after_eviction(old(self).records(), limit), hash@) > 0
                ==> final(self).shared_artifact(hash@) == old(self).shared_artifact(hash@),
            r is Ok && hash_count(after_eviction(old(self).records(), limit), hash@) == 0 ==> load.ensures(
                (),
                Ok(final(self).shared_artifact(hash@)),
            ),
            r matches Err(StoreError::LoadFailure(e)) ==> load.ensures((), Err(e)),
            r is Err ==> forall|h: Seq<u8>|
                #![trigger final(self).has_hash_entry(h)]
                final(self).has_hash_entry(h) ==> old(self).has_hash_entry(h)
                    && final(self).shared_artifact(h) == old(self).shared_artifact(h),
    {
        if limit != 0 && self.records.len() >= limit {
            self.retire_at(0);
        }
        let ghost r0 = self.records@;
        let ghost s0 = *self;
        proof {
            assert(r0 == after_eviction(old(self).records(), limit));
            s0.lemma_refcount(hash@);
            if hash_count(r0, hash@) > 0 {
                assert(s0.has_hash_entry(hash@));
                assert(s0.shared_artifact(hash@) == old(self).shared_artifact(hash@));
            }
        }
        let fresh: Option<A> = match self.hash_position(hash.as_slice()) {
            Some(_) => None,
            None => {
                let lr = load();
                match lr {
                    Ok(a) => Some(a),
                    Err(e) => {
                        return Err(StoreError::LoadFailure(e));
                    },
                }
            },
        };
        let ghost fresh0 = fresh;
        proof {
            if fresh0 is Some {
                assert(load.ensures((), Ok(fresh0->0)));
            }
        }
        let key = id.clone();
        if self.position_of(&key).is_some() {
            return Err(StoreError::IdentityCollision);
        }
        let rec = ModelRecord {
            id,
            name,
            hash,
            owner_id: None,
            input_facts,
            output_facts,
            optim,
            context,
            own_artifact: None,
        };
        self.commit(rec, owner_id, fresh);
        proof {
            if hash_count(r0, hash@) > 0 {
                assert(s0.has_hash_entry(hash@));
            } else {
                assert(fresh0 is Some);
            }
        }
        Ok(())
    }

    /// Removes the model with id `id` from all three indices.
    pub fn delete_model(&mut self, id: &str) -> (r: Option<ModelRecord<A>>)
        requires
            old(self).wf(),
        ensures
            final(self).wf(),
            r is None <==> !ids_contain(old(self).records(), id@),
            r is None ==> *final(self) == *old(self),
            r matches Some(rec) ==> rec.id@ == id@ && exists|i: int|
                0 <= i < old(self).records().len() && old(self).records()[i] == rec
                    && final(self).records() == old(self).records().remove(i),
            forall|h: Seq<u8>|
                #![trigger final(self).has_hash_entry(h)]
                final(self).has_hash_entry(h) ==> old(self).has_hash_entry(h)
                    && final(self).shared_artifact(h) == old(self).shared_artifact(h),
    {
        let key = id.to_owned();
        match self.position_of(&key) {
            Some(i) => Some(self.retire_at(i)),
            None => None,
        }
    }

    /// The record with id `id` and the artifact it resolves to.
    pub fn get(&self, id: &str) -> (r: Option<(&ModelRecord<A>, &A)>)
        requires
            self.wf(),
        ensures
            r is None <==> !ids_contain(self.records(), id@),
            r matches Some((rec, a)) ==> rec.id@ == id@ && *rec == self.record_with_id(id@) && *a
                == self.artifact_of(*rec),
    {
        let key = id.to_owned();
        match self.position_of(&key) {
            Some(i) => {
                let rec = &self.records[i];
                proof {
                    let c = choose|j: int| 0 <= j < self.records().len() && (#[trigger] self.records()[j]).id@ == id@;
                    if c != i as int {
                        if c < i {
                            assert(self.records@[c].id@ != self.records@[i as int].id@);
                        } else {
                            assert(self.records@[i as int].id@ != self.records@[c].id@);
                        }
                    }
                }
                match &rec.own_artifact {
                    Some(a) => Some((rec, a)),
                    None => {
                        proof {
                            let kk = choose|k: int|
                                0 <= k < self.hashes@.len() && (#[trigger] self.hashes@[k]).hash@ == rec.hash@;
                            assert(self.hashes@[kk].hash@ == rec.hash@);
                        }
                        match self.hash_position(rec.hash.as_slice()) {
                            Some(k) => {
                                proof {
                                    let ks = self.hash_slot(rec.hash@);
                                    if ks != k as int {
                                        if ks < k {
                                            assert(self.hashes@[ks].hash@ != self.hashes@[k as int].hash@);
                                        } else {
                                            assert(self.hashes@[k as int].hash@ != self.hashes@[ks].hash@);
                                        }
                                    }
                                }
                                Some((rec, &self.hashes[k].artifact))
                            },
                            None => None,
                        }
                    },
                }
            },
            None => None,
        }
    }

    /// The reference count stored for content hash `h` (0 without entry).
    pub fn refcount_of(&self, h: &[u8]) -> (r: usize)
        requires
            self.wf(),
        ensures
            r == self.refcount(h@),
    {
        match self.hash_position(h) {
            Some(k) => {
                proof {
                    let ks = self.hash_slot(h@);
                    if ks != k as int {
                        if ks < k {
                            assert(self.hashes@[ks].hash@ != self.hashes@[k as int].hash@);
                        } else {
                            assert(self.hashes@[k as int].hash@ != self.hashes@[ks].hash@);
                        }
                    }
                }
                self.hashes[k].count
            },
            None => 0,
        }
    }

    /// Inserts a preloaded model, which carries its own artifact and takes
    /// no part in the hash index or in eviction. A live record with the same
    /// id is replaced.
    pub fn insert_preloaded(
        &mut self,
        id: String,
        hash: Vec<u8>,
        input_facts: Vec<TensorFacts>,
        output_facts: Vec<TensorFacts>,
        optim: bool,
        artifact: A,
    )
        requires
            old(self).wf(),
            old(self).records().len() < usize::MAX,
        ensures
            final(self).wf(),
            final(self).records() == without_id(old(self).records(), id@).push(
                ModelRecord {
                    id,
                    name: None,
                    hash,
                    owner_id: None,
                    input_facts,
                    output_facts,
                    optim,
                    context: LoadContext::FromStartupConfig,
                    own_artifact: Some(artifact),
                },
            ),
            forall|h: Seq<u8>|
                #![trigger final(self).has_hash_entry(h)]
                final(self).has_hash_entry(h) ==> old(self).has_hash_entry(h)
                    && final(self).shared_artifact(h) == old(self).shared_artifact(h),
    {
        let ghost r_old = self.records@;
        let key = id.clone();
        match self.position_of(&key) {
            Some(i) => {
                self.retire_at(i);
                proof {
                    let c = choose|j: int| 0 <= j < r_old.len() && (#[trigger] r_old[j]).id@ == id@;
                    if c != i as int {
                        if c < i {
                            assert(r_old[c].id@ != r_old[i as int].id@);
                        } else {
                            assert(r_old[i as int].id@ != r_old[c].id@);
                        }
                    }
                    assert forall|j: int| 0 <= j < self.records@.len() implies (#[trigger] self.records@[j]).id@ != id@ by {
                        let oj = skip(j, i as int);
                        assert(self.records@[j] == r_old[oj]);
                        if oj < i {
                            assert(r_old[oj].id@ != r_old[i as int].id@);
                        } else {
                            assert(r_old[i as int].id@ != r_old[oj].id@);
                        }
                    }
                }
            },
            None => {},
        }
        let ghost r1 = self.records@;
        let ghost s1 = *self;
        let rec = ModelRecord {
            id,
            name: None,
            hash,
            owner_id: None,
            input_facts,
            output_facts,
            optim,
            context: LoadContext::FromStartupConfig,
            own_artifact: Some(artifact),
        };
        let ghost hs = self.hashes@;
        self.records.push(rec);
        proof {
            lemma_push_unowned(r1, self.owners@, rec);
            assert forall|h: Seq<u8>| #![trigger hash_count(self.records@, h)]
                hash_count(self.records@, h) == hash_count(r1, h) by {
                lemma_count_push(r1, rec, h);
            }
            assert forall|k: int| 0 <= k < hs.len() implies (#[trigger] hs[k]).count as nat == hash_count(
                self.records@,
                hs[k].hash@,
            ) && hs[k].count > 0 by {
                assert(hash_count(self.records@, hs[k].hash@) == hash_count(r1, hs[k].hash@));
            }
            assert forall|j: int| 0 <= j < self.records@.len() && is_counted(#[trigger] self.records@[j]) implies exists|k: int|
                0 <= k < hs.len() && (#[trigger] hs[k]).hash@ == self.records@[j].hash@ by {
                assert(j < r1.len());
                assert(self.records@[j] == r1[j]);
            }
            assert forall|h: Seq<u8>|
                #![trigger self.has_hash_entry(h)]
                self.has_hash_entry(h) implies old(self).has_hash_entry(h)
                    && self.shared_artifact(h) == old(self).shared_artifact(h) by {
                assert(self.hashes@ == s1.hashes@);
                assert(self.has_hash_entry(h) == s1.has_hash_entry(h));
                assert(self.shared_artifact(h) == s1.shared_artifact(h));
            }
        }
    }

    /// Whether a live model has id `id`.
    pub fn contains(&self, id: &str) -> (r: bool)
        requires
            self.wf(),
        ensures
            r == ids_contain(self.records(), id@),
    {
        let key = id.to_owned();
        self.position_of(&key).is_some()
    }

    /// The id of the live model of owner `o`.
    pub fn owner_model_id(&self, o: usize) -> (r: Option<String>)
        requires
            self.wf(),
        ensures
            r is None <==> self.owner_model(o) is None,
            r matches Some(id) ==> self.owner_model(o) == Some(id@),
    {
        match self.owner_position(o) {
            Some(k) => {
                proof {
                    let c = choose|j: int| 0 <= j < self.owners@.len() && (#[trigger] self.owners@[j]).0 == o;
                    if c != k as int {
                        if c < k {
                            assert(self.owners@[c].0 != self.owners@[k as int].0);
                        } else {
                            assert(self.owners@[k as int].0 != self.owners@[c].0);
                        }
                    }
                }
                Some(self.owners[k].1.clone())
            },
            None => None,
        }
    }
}

} // verus!
