//! The model store: the index together with the store's configuration.
use crate::counting::hash_count;
use crate::digest::{content_hash, fresh_id, sha256_of, SHA256_INPUT_LIMIT};
use crate::index::{copy_bytes, after_eviction, after_owner_retired, ids_contain, without_id, ModelIndex, StoreError};
use crate::record::{LoadContext, ModelRecord, TensorFacts};
use vstd::prelude::*;

verus! {

/// One model that the configuration asks to preload from a file.
pub struct LoadModelConfig {
    pub path: String,
    pub model_id: String,
    pub no_optim: bool,
    pub input_facts: Vec<TensorFacts>,
    pub output_facts: Vec<TensorFacts>,
}

/// The static configuration of a store.
pub struct StoreConfig {
    /// Directory that holds one sealed file per model id.
    pub models_path: String,
    /// Largest number of live models; 0 means unbounded.
    pub max_model_store: usize,
    pub load_models: Vec<LoadModelConfig>,
}

/// A model as unsealed from storage.
pub struct SealedModel {
    pub model_bytes: Vec<u8>,
    pub model_name: Option<String>,
    pub model_id: String,
    pub input_facts: Vec<TensorFacts>,
    pub output_facts: Vec<TensorFacts>,
    pub optim: bool,
    pub owner_id: Option<usize>,
}

/// Where models are stored.
pub struct ModelStore<A> {
    pub config: StoreConfig,
    pub index: ModelIndex<A>,
}

impl<A> ModelStore<A> {
    pub open spec fn wf(&self) -> bool {
        self.index.wf()
    }

    /// The live records once the oldest has made room for one more.
    pub open spec fn evicted(&self) -> Seq<ModelRecord<A>> {
        after_eviction(self.index.records(), self.config.max_model_store)
    }

    pub fn new(config: StoreConfig) -> (r: Self)
        ensures
            r.wf(),
            r.index.records() == Seq::<ModelRecord<A>>::empty(),
            r.config == config,
    {
        ModelStore { config, index: ModelIndex::new() }
    }

    /// Inserts a model: its id is `model_id` or a fresh one, its hash the
    /// SHA-256 digest of `model_bytes`. Returns the id and the hash.
    pub fn add_model<F>(
        &mut self,
        model_bytes: &[u8],
        model_name: Option<String>,
        model_id: Option<String>,
        input_facts: Vec<TensorFacts>,
        output_facts: Vec<TensorFacts>,
        optim: bool,
        load_context: LoadContext,
        owner_id: Option<usize>,
        load: F,
    ) -> (r: Result<(String, Vec<u8>), StoreError>) where F: FnOnce() -> Result<A, String>
        requires
            old(self).wf(),
            load.requires(()),
            old(self).index.records().len() < usize::MAX,
            model_bytes@.len() < SHA256_INPUT_LIMIT,
        ensures
            final(self).wf(),
            final(self).config == old(self).config,
            r matches Ok((id, hash)) ==> {
                let recs = final(self).index.records();
                let rec = recs.last();
                &&& hash@ == sha256_of(model_bytes@)
                &&& (model_id matches Some(m) ==> id@ == m@)
                &&& recs.len() > 0
                &&& recs.drop_last() == after_owner_retired(old(self).evicted(), owner_id)
                &&& rec.id@ == id@
                &&& rec.hash@ == hash@
                &&& rec.name == model_name
                &&& rec.owner_id == owner_id
                &&& rec.input_facts == input_facts
                &&& rec.output_facts == output_facts
                &&& rec.optim == optim
                &&& rec.context == load_context
                &&& rec.own_artifact is None
            },
            r is Ok && hash_count(old(self).evicted(), sha256_of(model_bytes@)) > 0
                ==> final(self).index.shared_artifact(sha256_of(model_bytes@))
                == old(self).index.shared_artifact(sha256_of(model_bytes@)),
            r matches Err(StoreError::LoadFailure(_)) ==> hash_count(
                old(self).evicted(),
                sha256_of(model_bytes@),
            ) == 0 && final(self).index.records() == old(self).evicted(),
            r matches Err(StoreError::IdentityCollision) ==> final(self).index.records()
                == old(self).evicted() && (model_id is Some ==> ids_contain(
                old(self).evicted(),
                model_id->0@,
            )),
            model_id is Some && !(r is Err && r->Err_0 is LoadFailure) ==> (r is Ok <==> !ids_contain(
                old(self).evicted(),
                model_id->0@,
            )),
            hash_count(old(self).evicted(), sha256_of(model_bytes@)) > 0 ==> !(r is Err
                && r->Err_0 is LoadFailure),
            !(r is Err && r->Err_0 is PersistenceFailure),
            r is Ok && hash_count(old(self).evicted(), sha256_of(model_bytes@)) == 0 ==> load.ensures(
                (),
                Ok(final(self).index.shared_artifact(sha256_of(model_bytes@))),
            ),
            r matches Err(StoreError::LoadFailure(e)) ==> load.ensures((), Err(e)),
            r is Err ==> forall|h: Seq<u8>|
                #![trigger final(self).index.has_hash_entry(h)]
                final(self).index.has_hash_entry(h) ==> old(self).index.has_hash_entry(h)
                    && final(self).index.shared_artifact(h) == old(self).index.shared_artifact(h),
    {
        let id = match model_id {
            Some(m) => m,
            None => fresh_id(),
        };
        let hash = content_hash(model_bytes);
        let id_out = id.clone();
        let hash_out = copy_bytes(hash.as_slice());
        let res = self.index.add_model(
            self.config.max_model_store,
            id,
            model_name,
            hash,
            input_facts,
            output_facts,
            optim,
            load_context,
            owner_id,
            load,
        );
        proof {
            if res is Ok {
                assert(self.index.records().drop_last() =~= after_owner_retired(
                    after_eviction(old(self).index.records(), old(self).config.max_model_store),
                    owner_id,
                ));
            }
        }
        match res {
            Ok(()) => Ok((id_out, hash_out)),
            Err(e) => Err(e),
        }
    }

    /// Runs `fun` on the model with id `model_id` and the artifact it
    /// resolves to; `None` when the id is unknown.
    pub fn use_model<U, G>(&self, model_id: &str, fun: G) -> (r: Option<U>) where
        G: FnOnce(&ModelRecord<A>, &A) -> U,
        requires
            self.wf(),
            forall|rec: &ModelRecord<A>, a: &A| fun.requires((rec, a)),
        ensures
            r is None <==> !ids_contain(self.index.records(), model_id@),
            r matches Some(u) ==> fun.ensures(
                (
                    &self.index.record_with_id(model_id@),
                    &self.index.artifact_of(self.index.record_with_id(model_id@)),
                ),
                u,
            ),
    {
        match self.index.get(model_id) {
            Some((rec, a)) => {
                let u = fun(rec, a);
                Some(u)
            },
            None => None,
        }
    }

    /// Removes the model with id `model_id` from all three indices and
    /// returns it; `None`, with nothing changed, when the id is unknown.
    pub fn delete_model(&mut self, model_id: &str) -> (r: Option<ModelRecord<A>>)
        requires
            old(self).wf(),
        ensures
            final(self).wf(),
            final(self).config == old(self).config,
            r is None <==> !ids_contain(old(self).index.records(), model_id@),
            r is None ==> final(self).index == old(self).index,
            r matches Some(rec) ==> rec.id@ == model_id@ && exists|i: int|
                0 <= i < old(self).index.records().len() && old(self).index.records()[i] == rec
                    && final(self).index.records() == old(self).index.records().remove(i),
            forall|h: Seq<u8>|
                #![trigger final(self).index.has_hash_entry(h)]
                final(self).index.has_hash_entry(h) ==> old(self).index.has_hash_entry(h)
                    && final(self).index.shared_artifact(h) == old(self).index.shared_artifact(h),
    {
        self.index.delete_model(model_id)
    }
    /// Re-inserts a model unsealed from storage under its own id and owner,
    /// without sealing it again, tagged as restored.
    pub fn restore_sealed<F>(&mut self, sealed: SealedModel, load: F) -> (r: Result<(String, Vec<u8>), StoreError>) where
        F: FnOnce() -> Result<A, String>,
        requires
            old(self).wf(),
            load.requires(()),
            old(self).index.records().len() < usize::MAX,
            sealed.model_bytes@.len() < SHA256_INPUT_LIMIT,
        ensures
            final(self).wf(),
            final(self).config == old(self).config,
            r matches Ok((id, hash)) ==> {
                let recs = final(self).index.records();
                let rec = recs.last();
                &&& id@ == sealed.model_id@
                &&& hash@ == sha256_of(sealed.model_bytes@)
                &&& recs.len() > 0
                &&& recs.drop_last() == after_owner_retired(old(self).evicted(), sealed.owner_id)
                &&& rec.id@ == sealed.model_id@
                &&& rec.hash@ == hash@
                &&& rec.name == sealed.model_name
                &&& rec.owner_id == sealed.owner_id
                &&& rec.input_facts == sealed.input_facts
                &&& rec.output_facts == sealed.output_facts
                &&& rec.optim == sealed.optim
                &&& rec.context == LoadContext::FromSealedStorage
                &&& rec.own_artifact is None
            },
            r matches Err(StoreError::LoadFailure(_)) ==> hash_count(
                old(self).evicted(),
                sha256_of(sealed.model_bytes@),
            ) == 0 && final(self).index.records() == old(self).evicted(),
            r matches Err(StoreError::IdentityCollision) ==> final(self).index.records()
                == old(self).evicted() && ids_contain(old(self).evicted(), sealed.model_id@),
            !(r is Err && r->Err_0 is LoadFailure) ==> (r is Ok <==> !ids_contain(
                old(self).evicted(),
                sealed.model_id@,
            )),
            hash_count(old(self).evicted(), sha256_of(sealed.model_bytes@)) > 0 ==> !(r is Err
                && r->Err_0 is LoadFailure),
            !(r is Err && r->Err_0 is PersistenceFailure),
            r is Ok && hash_count(old(self).evicted(), sha256_of(sealed.model_bytes@)) > 0
                ==> final(self).index.shared_artifact(sha256_of(sealed.model_bytes@))
                == old(self).index.shared_artifact(sha256_of(sealed.model_bytes@)),
            r is Ok && hash_count(old(self).evicted(), sha256_of(sealed.model_bytes@)) == 0 ==> load.ensures(
                (),
                Ok(final(self).index.shared_artifact(sha256_of(sealed.model_bytes@))),
            ),
            r matches Err(StoreError::LoadFailure(e)) ==> load.ensures((), Err(e)),
            r is Err ==> forall|h: Seq<u8>|
                #![trigger final(self).index.has_hash_entry(h)]
                final(self).index.has_hash_entry(h) ==> old(self).index.has_hash_entry(h)
                    && final(self).index.shared_artifact(h) == old(self).index.shared_artifact(h),
    {
        let SealedModel { model_bytes, model_name, model_id, input_facts, output_facts, optim, owner_id } =
            sealed;
        self.add_model(
            model_bytes.as_slice(),
            model_name,
            Some(model_id),
            input_facts,
            output_facts,
            optim,
            LoadContext::FromSealedStorage,
            owner_id,
            load,
        )
    }

    /// Inserts one configured model, already loaded from its file, straight
    /// into the id index: it takes no part in deduplication or eviction, and
    /// replaces a live model with the same id.
    pub fn load_config_model(
        &mut self,
        model_id: String,
        hash: Vec<u8>,
        input_facts: Vec<TensorFacts>,
        output_facts: Vec<TensorFacts>,
        optim: bool,
        artifact: A,
    )
        requires
            old(self).wf(),
            old(self).index.records().len() < usize::MAX,
        ensures
            final(self).wf(),
            final(self).config == old(self).config,
            final(self).index.records() == without_id(old(self).index.records(), model_id@).push(
                ModelRecord {
                    id: model_id,
                    name: None,
                    hash,
                    owner_id: None,
                    input_facts,
                    output_facts,
                    optim,
                    context: LoadContext::FromStartupConfig,
                    own_artifact: Some(artifact),
                },
            ),
            forall|h: Seq<u8>|
                #![trigger final(self).index.has_hash_entry(h)]
                final(self).index.has_hash_entry(h) ==> old(self).index.has_hash_entry(h)
                    && final(self).index.shared_artifact(h) == old(self).index.shared_artifact(h),
    {
        self.index.insert_preloaded(model_id, hash, input_facts, output_facts, optim, artifact);
    }
}

} // verus!
