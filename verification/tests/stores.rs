use image_ingest::record::{DerivativeEntry, ImageRecord};
use image_ingest::keys::Dim;
use image_ingest::store::{MemoryMetadataStore, MemoryObjectStore, MetaError};

fn base() -> String {
    String::from("https://bucket.s3.amazonaws.com/")
}

#[test]
fn put_returns_url_and_stores_bytes() {
    let mut store = MemoryObjectStore::new(base());
    let key = String::from("images/a.png");
    let bytes = vec![1u8, 2, 3];
    let url = store.put(&key, &bytes).unwrap();
    assert_eq!(url, "https://bucket.s3.amazonaws.com/images/a.png");
    assert_eq!(store.objects.len(), 1);
    assert_eq!(store.objects[0].key, key);
    assert_eq!(store.objects[0].bytes, bytes);
}

#[test]
fn put_twice_same_key_same_bytes_same_url() {
    let mut store = MemoryObjectStore::new(base());
    let key = String::from("images/a.png");
    let bytes = vec![9u8, 9, 9];
    let url1 = store.put(&key, &bytes).unwrap();
    let url2 = store.put(&key, &bytes).unwrap();
    assert_eq!(url1, url2);
    // the overwrite leaves the same observable contents under the key
    let last = store.objects.last().unwrap();
    assert_eq!(last.key, key);
    assert_eq!(last.bytes, bytes);
}

#[test]
fn put_failing_key_errors_and_stores_nothing() {
    let mut store = MemoryObjectStore::new(base());
    let key = String::from("images/a.png");
    store.fail_key(key.clone());
    assert!(store.put(&key, &vec![1u8]).is_err());
    assert!(store.objects.is_empty());

    let other = String::from("images/b.png");
    assert!(store.put(&other, &vec![2u8]).is_ok());
}

#[test]
fn create_then_get_round_trip() {
    let mut meta = MemoryMetadataStore::new();
    let rec = ImageRecord::new(String::from("id1"), String::from("u1"), 42);
    meta.create(rec).unwrap();
    let got = meta.get(&String::from("id1")).unwrap();
    assert_eq!(got.id, "id1");
    assert_eq!(got.original_url, "u1");
    assert_eq!(got.created_at, 42);
    assert!(got.derivatives.is_empty());
    assert_eq!(meta.create_calls, 1);
}

#[test]
fn get_missing_is_not_found() {
    let meta = MemoryMetadataStore::new();
    assert_eq!(meta.get(&String::from("nope")).unwrap_err(), MetaError::NotFound);
}

#[test]
fn create_duplicate_id_fails() {
    let mut meta = MemoryMetadataStore::new();
    meta.create(ImageRecord::new(String::from("id1"), String::from("u1"), 1)).unwrap();
    let dup = ImageRecord::new(String::from("id1"), String::from("u2"), 2);
    assert!(meta.create(dup).is_err());
    assert_eq!(meta.records.len(), 1);
    assert_eq!(meta.create_calls, 2);
}

#[test]
fn forced_create_failure_stores_nothing() {
    let mut meta = MemoryMetadataStore::new();
    meta.fail_create = true;
    let rec = ImageRecord::new(String::from("id1"), String::from("u1"), 1);
    assert!(meta.create(rec).is_err());
    assert!(meta.records.is_empty());
    assert_eq!(meta.create_calls, 1);
}

#[test]
fn update_derivatives_merges_supplied_sizes() {
    let mut meta = MemoryMetadataStore::new();
    meta.create(ImageRecord::new(String::from("id1"), String::from("u1"), 1)).unwrap();
    let first = vec![
        DerivativeEntry { dim: Dim { width: 800, height: 600 }, url: String::from("d1") },
        DerivativeEntry { dim: Dim { width: 1024, height: 768 }, url: String::from("d2") },
    ];
    meta.update_derivatives(&String::from("id1"), &first).unwrap();
    let second = vec![
        DerivativeEntry { dim: Dim { width: 800, height: 600 }, url: String::from("d1-new") },
        DerivativeEntry { dim: Dim { width: 1280, height: 720 }, url: String::from("d3") },
    ];
    meta.update_derivatives(&String::from("id1"), &second).unwrap();

    let got = meta.get(&String::from("id1")).unwrap();
    assert_eq!(got.derivatives.len(), 3);
    let url_of = |w: u32, h: u32| {
        got.derivatives
            .iter()
            .find(|e| e.dim.width == w && e.dim.height == h)
            .map(|e| e.url.clone())
            .unwrap()
    };
    assert_eq!(url_of(800, 600), "d1-new");
    assert_eq!(url_of(1024, 768), "d2");
    assert_eq!(url_of(1280, 720), "d3");
    assert_eq!(meta.update_calls, 2);
}

#[test]
fn update_derivatives_missing_id_is_not_found() {
    let mut meta = MemoryMetadataStore::new();
    let updates = vec![DerivativeEntry {
        dim: Dim { width: 800, height: 600 },
        url: String::from("d1"),
    }];
    assert_eq!(
        meta.update_derivatives(&String::from("nope"), &updates).unwrap_err(),
        MetaError::NotFound
    );
    assert_eq!(meta.update_calls, 1);
}

#[test]
fn record_duplicate_copies_every_field() {
    let mut rec = ImageRecord::new(String::from("id1"), String::from("u1"), 5);
    rec.upsert_derivative(Dim { width: 800, height: 600 }, String::from("d1"));
    let copy = rec.duplicate();
    assert_eq!(copy.id, rec.id);
    assert_eq!(copy.original_url, rec.original_url);
    assert_eq!(copy.created_at, rec.created_at);
    assert_eq!(copy.derivatives.len(), 1);
    assert_eq!(copy.derivatives[0].url, "d1");
}
