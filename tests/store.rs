use model_store::digest::content_hash;
use model_store::index::StoreError;
use model_store::record::{LoadContext, TensorFacts};
use model_store::store::{ModelStore, SealedModel, StoreConfig};
use std::cell::Cell;

fn store(limit: usize) -> ModelStore<String> {
    ModelStore::new(StoreConfig {
        models_path: "models".to_string(),
        max_model_store: limit,
        load_models: Vec::new(),
    })
}

fn facts() -> Vec<TensorFacts> {
    vec![TensorFacts {
        datum_type: Some("f32".to_string()),
        dims: vec![1, 3, 224, 224],
        index: Some(0),
        index_name: Some("input".to_string()),
    }]
}

fn add(
    s: &mut ModelStore<String>,
    bytes: &[u8],
    id: Option<&str>,
    owner: Option<usize>,
    loads: &Cell<u32>,
) -> Result<(String, Vec<u8>), StoreError> {
    let text = String::from_utf8_lossy(bytes).to_string();
    s.add_model(
        bytes,
        None,
        id.map(|i| i.to_string()),
        facts(),
        Vec::new(),
        true,
        LoadContext::FromSendModel,
        owner,
        || {
            loads.set(loads.get() + 1);
            Ok(format!("parsed:{}", text))
        },
    )
}

#[test]
fn capacity_evicts_oldest() {
    let loads = Cell::new(0);
    let mut s = store(2);
    add(&mut s, b"model A", Some("m1"), None, &loads).unwrap();
    add(&mut s, b"model B", Some("m2"), None, &loads).unwrap();
    add(&mut s, b"model C", Some("m3"), None, &loads).unwrap();
    assert_eq!(s.index.len(), 2);
    assert!(!s.index.contains("m1"));
    assert!(s.index.contains("m2"));
    assert!(s.index.contains("m3"));
    assert_eq!(s.index.refcount_of(&content_hash(b"model A")), 0);
    assert_eq!(s.index.refcount_of(&content_hash(b"model C")), 1);
}

#[test]
fn owner_reupload_retires_previous() {
    let loads = Cell::new(0);
    let mut s = store(0);
    add(&mut s, b"bytes one", Some("a"), Some(7), &loads).unwrap();
    add(&mut s, b"bytes one", Some("b"), Some(7), &loads).unwrap();
    assert!(!s.index.contains("a"));
    assert!(s.index.contains("b"));
    assert_eq!(s.index.owner_model_id(7), Some("b".to_string()));
    assert_eq!(s.index.refcount_of(&content_hash(b"bytes one")), 1);
    assert_eq!(loads.get(), 1);
}

#[test]
fn owner_reupload_with_new_content_drops_old_hash() {
    let loads = Cell::new(0);
    let mut s = store(0);
    add(&mut s, b"old content", Some("a"), Some(3), &loads).unwrap();
    add(&mut s, b"new content", Some("b"), Some(3), &loads).unwrap();
    assert!(!s.index.contains("a"));
    assert_eq!(s.index.refcount_of(&content_hash(b"old content")), 0);
    assert_eq!(s.index.refcount_of(&content_hash(b"new content")), 1);
    assert_eq!(s.index.owner_model_id(3), Some("b".to_string()));
    assert_eq!(s.index.len(), 1);
}

#[test]
fn delete_unknown_is_absent() {
    let loads = Cell::new(0);
    let mut s = store(0);
    add(&mut s, b"kept", Some("k"), Some(1), &loads).unwrap();
    assert!(s.delete_model("zzz").is_none());
    assert_eq!(s.index.len(), 1);
    assert!(s.index.contains("k"));
    assert_eq!(s.index.refcount_of(&content_hash(b"kept")), 1);
    assert_eq!(s.index.owner_model_id(1), Some("k".to_string()));
}

#[test]
fn delete_leaves_unrelated_model() {
    let loads = Cell::new(0);
    let mut s = store(0);
    add(&mut s, b"first bytes", Some("x"), None, &loads).unwrap();
    add(&mut s, b"second bytes", Some("y"), None, &loads).unwrap();
    let removed = s.delete_model("x").unwrap();
    assert_eq!(removed.id, "x");
    assert!(!s.index.contains("x"));
    assert!(s.index.contains("y"));
    assert_eq!(s.index.refcount_of(&content_hash(b"first bytes")), 0);
    assert_eq!(s.index.refcount_of(&content_hash(b"second bytes")), 1);
}

#[test]
fn identical_bytes_share_one_artifact() {
    let loads = Cell::new(0);
    let mut s = store(0);
    let (id1, h1) = add(&mut s, b"same", Some("one"), None, &loads).unwrap();
    let (id2, h2) = add(&mut s, b"same", Some("two"), None, &loads).unwrap();
    assert_ne!(id1, id2);
    assert_eq!(h1, h2);
    assert_eq!(loads.get(), 1);
    assert_eq!(s.index.refcount_of(&h1), 2);
    let a1 = s.use_model("one", |_, a| a.clone()).unwrap();
    let a2 = s.use_model("two", |_, a| a.clone()).unwrap();
    assert_eq!(a1, a2);
    assert!(s.delete_model("one").is_some());
    assert_eq!(s.index.refcount_of(&h1), 1);
    assert_eq!(s.use_model("two", |_, a| a.clone()), Some("parsed:same".to_string()));
}

#[test]
fn explicit_id_collision_leaves_store_unchanged() {
    let loads = Cell::new(0);
    let mut s = store(0);
    add(&mut s, b"original", Some("dup"), Some(5), &loads).unwrap();
    let r = add(&mut s, b"original", Some("dup"), Some(6), &loads);
    assert!(matches!(r, Err(StoreError::IdentityCollision)));
    let r = add(&mut s, b"other", Some("dup"), None, &loads);
    assert!(matches!(r, Err(StoreError::IdentityCollision)));
    assert_eq!(s.index.len(), 1);
    assert_eq!(s.index.refcount_of(&content_hash(b"original")), 1);
    assert_eq!(s.index.refcount_of(&content_hash(b"other")), 0);
    assert_eq!(s.index.owner_model_id(5), Some("dup".to_string()));
    assert_eq!(s.index.owner_model_id(6), None);
}

#[test]
fn lookup_unknown_is_absent() {
    let loads = Cell::new(0);
    let mut s = store(0);
    add(&mut s, b"present", Some("p"), None, &loads).unwrap();
    assert_eq!(s.use_model("missing", |r, _| r.id.clone()), None);
    assert_eq!(s.use_model("p", |r, _| r.id.clone()), Some("p".to_string()));
    assert_eq!(s.index.len(), 1);
}

#[test]
fn load_failure_inserts_nothing() {
    let mut s = store(0);
    let r = s.add_model(
        b"garbage",
        None,
        Some("g".to_string()),
        Vec::new(),
        Vec::new(),
        false,
        LoadContext::FromSendModel,
        Some(2),
        || Err("unsupported graph".to_string()),
    );
    assert!(matches!(r, Err(StoreError::LoadFailure(_))));
    assert_eq!(s.index.len(), 0);
    assert_eq!(s.index.refcount_of(&content_hash(b"garbage")), 0);
    assert_eq!(s.index.owner_model_id(2), None);
}

#[test]
fn load_failure_keeps_eviction() {
    let loads = Cell::new(0);
    let mut s = store(1);
    add(&mut s, b"first", Some("f"), None, &loads).unwrap();
    let r = s.add_model(
        b"broken",
        None,
        Some("b".to_string()),
        Vec::new(),
        Vec::new(),
        false,
        LoadContext::FromSendModel,
        None,
        || Err("bad".to_string()),
    );
    assert!(matches!(r, Err(StoreError::LoadFailure(_))));
    assert_eq!(s.index.len(), 0);
}

#[test]
fn generated_id_and_sha256_hash() {
    let loads = Cell::new(0);
    let mut s = store(0);
    let (id, hash) = add(&mut s, b"abc", None, None, &loads).unwrap();
    assert_eq!(id.len(), 36);
    assert!(s.index.contains(&id));
    let expected: Vec<u8> = vec![
        0xba, 0x78, 0x16, 0xbf, 0x8f, 0x01, 0xcf, 0xea, 0x41, 0x41, 0x40, 0xde, 0x5d, 0xae, 0x22,
        0x23, 0xb0, 0x03, 0x61, 0xa3, 0x96, 0x17, 0x7a, 0x9c, 0xb4, 0x10, 0xff, 0x61, 0xf2, 0x00,
        0x15, 0xad,
    ];
    assert_eq!(hash, expected);
    let (id2, _) = add(&mut s, b"abc", None, None, &loads).unwrap();
    assert_ne!(id, id2);
}

#[test]
fn restore_reproduces_sealed_metadata() {
    let mut s = store(0);
    let sealed = SealedModel {
        model_bytes: b"sealed bytes".to_vec(),
        model_name: Some("resnet".to_string()),
        model_id: "restored".to_string(),
        input_facts: facts(),
        output_facts: Vec::new(),
        optim: false,
        owner_id: Some(9),
    };
    let (id, hash) = s.restore_sealed(sealed, || Ok("artifact".to_string())).unwrap();
    assert_eq!(id, "restored");
    assert_eq!(hash, content_hash(b"sealed bytes"));
    let (name, owner, dims, ctx, optim) = s
        .use_model("restored", |r, _| {
            (r.name.clone(), r.owner_id, r.input_facts[0].dims.clone(), r.context, r.optim)
        })
        .unwrap();
    assert_eq!(name, Some("resnet".to_string()));
    assert_eq!(owner, Some(9));
    assert_eq!(dims, vec![1, 3, 224, 224]);
    assert_eq!(ctx, LoadContext::FromSealedStorage);
    assert!(!optim);
    assert_eq!(s.index.owner_model_id(9), Some("restored".to_string()));
}

#[test]
fn preloaded_models_bypass_hash_index() {
    let loads = Cell::new(0);
    let mut s = store(0);
    let h = content_hash(b"data :)");
    s.load_config_model("cfg".to_string(), h.clone(), facts(), Vec::new(), true, "from file".to_string());
    assert!(s.index.contains("cfg"));
    assert_eq!(s.index.refcount_of(&h), 0);
    assert_eq!(s.use_model("cfg", |_, a| a.clone()), Some("from file".to_string()));
    add(&mut s, b"data :)", Some("up"), None, &loads).unwrap();
    assert_eq!(loads.get(), 1);
    assert_eq!(s.index.refcount_of(&h), 1);
    s.load_config_model("cfg".to_string(), h.clone(), facts(), Vec::new(), false, "again".to_string());
    assert_eq!(s.index.len(), 2);
    assert_eq!(s.use_model("cfg", |_, a| a.clone()), Some("again".to_string()));
}
