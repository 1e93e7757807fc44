use image_ingest::keys::Dim;
use image_ingest::pipeline::{
    default_derivative_spec, generate_derivatives, ingest, ingest_and_generate, ingest_new,
    DerivativeFailure, Event, IngestError,
};
use image_ingest::store::{MemoryMetadataStore, MemoryObjectStore};

fn base() -> String {
    String::from("https://bucket.s3.amazonaws.com/")
}

fn sample_png() -> Vec<u8> {
    let img = image::RgbImage::from_pixel(4, 4, image::Rgb([10u8, 120, 200]));
    let dynimg = image::DynamicImage::ImageRgb8(img);
    let mut buf: Vec<u8> = Vec::new();
    let mut cursor = std::io::Cursor::new(&mut buf);
    dynimg.write_to(&mut cursor, image::ImageFormat::Png).unwrap();
    buf
}

fn two_sizes() -> Vec<Dim> {
    vec![Dim { width: 800, height: 600 }, Dim { width: 1024, height: 768 }]
}

#[test]
fn default_spec_has_four_distinct_sizes() {
    let spec = default_derivative_spec();
    assert_eq!(spec.len(), 4);
    assert_eq!(spec[0], Dim { width: 800, height: 600 });
    assert_eq!(spec[1], Dim { width: 1024, height: 768 });
    assert_eq!(spec[2], Dim { width: 1280, height: 720 });
    assert_eq!(spec[3], Dim { width: 1920, height: 1080 });
}

#[test]
fn successful_ingestion_two_sizes() {
    let mut obj = MemoryObjectStore::new(base());
    let mut meta = MemoryMetadataStore::new();
    let mut log: Vec<Event> = Vec::new();
    let bytes = sample_png();
    let id = String::from("img1");

    let (r, results) =
        ingest_and_generate(&mut obj, &mut meta, &mut log, &bytes, &id, 42, &two_sizes());
    let resp = r.unwrap();
    assert_eq!(resp.id, "img1");
    assert_eq!(
        resp.original_url,
        "https://bucket.s3.amazonaws.com/images/img1.png"
    );

    assert_eq!(results.len(), 2);
    assert!(results.iter().all(|dr| dr.outcome.is_ok()));

    let rec = meta.get(&id).unwrap();
    assert_eq!(rec.original_url, resp.original_url);
    assert_eq!(rec.created_at, 42);
    assert_eq!(rec.derivatives.len(), 2);
    let url_of = |w: u32, h: u32| {
        rec.derivatives
            .iter()
            .find(|e| e.dim.width == w && e.dim.height == h)
            .map(|e| e.url.clone())
            .unwrap()
    };
    let d1 = url_of(800, 600);
    let d2 = url_of(1024, 768);
    assert_eq!(d1, "https://bucket.s3.amazonaws.com/images/img1/800x600.jpg");
    assert_eq!(d2, "https://bucket.s3.amazonaws.com/images/img1/1024x768.jpg");
    assert_ne!(d1, d2);
    assert_ne!(d1, resp.original_url);
    assert_ne!(d2, resp.original_url);
}

#[test]
fn all_default_sizes_fill_the_mapping() {
    let mut obj = MemoryObjectStore::new(base());
    let mut meta = MemoryMetadataStore::new();
    let mut log: Vec<Event> = Vec::new();
    let bytes = sample_png();
    let id = String::from("img1");
    let sizes = default_derivative_spec();

    let (r, results) =
        ingest_and_generate(&mut obj, &mut meta, &mut log, &bytes, &id, 1, &sizes);
    assert!(r.is_ok());
    assert_eq!(results.len(), 4);
    assert!(results.iter().all(|dr| dr.outcome.is_ok()));

    let rec = meta.get(&id).unwrap();
    assert_eq!(rec.derivatives.len(), 4);
    let mut urls: Vec<String> = rec.derivatives.iter().map(|e| e.url.clone()).collect();
    urls.sort();
    urls.dedup();
    assert_eq!(urls.len(), 4);
    assert_eq!(meta.update_calls, 1);
}

#[test]
fn invalid_input_has_no_side_effects() {
    let mut obj = MemoryObjectStore::new(base());
    let mut meta = MemoryMetadataStore::new();
    let mut log: Vec<Event> = Vec::new();
    let bytes = vec![
        0x3fu8, 0x91, 0x07, 0x5c, 0xaa, 0x01, 0x88, 0x4e, 0x10, 0xfe, 0x72, 0x33, 0x5d, 0xc4,
        0x06, 0x9b,
    ];
    let id = String::from("img1");

    let (r, results) =
        ingest_and_generate(&mut obj, &mut meta, &mut log, &bytes, &id, 7, &two_sizes());
    assert_eq!(r.unwrap_err(), IngestError::InvalidInput);
    assert!(results.is_empty());
    assert!(obj.objects.is_empty());
    assert!(meta.records.is_empty());
    assert_eq!(meta.create_calls, 0);
    assert_eq!(meta.update_calls, 0);
    assert!(log.is_empty());
}

#[test]
fn failed_original_upload_never_creates_a_record() {
    let mut obj = MemoryObjectStore::new(base());
    let mut meta = MemoryMetadataStore::new();
    let mut log: Vec<Event> = Vec::new();
    let bytes = sample_png();
    let id = String::from("img1");
    obj.fail_key(String::from("images/img1.png"));

    let (r, results) =
        ingest_and_generate(&mut obj, &mut meta, &mut log, &bytes, &id, 7, &two_sizes());
    assert_eq!(r.unwrap_err(), IngestError::StorageUnavailable);
    assert!(results.is_empty());
    assert!(obj.objects.is_empty());
    assert_eq!(meta.create_calls, 0);
    assert!(meta.records.is_empty());
    // only the attempted put of the original is in the trace
    assert_eq!(log.len(), 1);
    assert!(matches!(&log[0], Event::PutOriginal { key } if key == "images/img1.png"));
}

#[test]
fn single_derivative_failure_updates_with_the_rest() {
    let mut obj = MemoryObjectStore::new(base());
    let mut meta = MemoryMetadataStore::new();
    let mut log: Vec<Event> = Vec::new();
    let bytes = sample_png();
    let id = String::from("img1");
    obj.fail_key(String::from("images/img1/800x600.jpg"));

    let (r, results) =
        ingest_and_generate(&mut obj, &mut meta, &mut log, &bytes, &id, 7, &two_sizes());
    assert!(r.is_ok());
    assert_eq!(results.len(), 2);
    assert_eq!(
        results[0].outcome.as_ref().unwrap_err(),
        &DerivativeFailure::StoreFailed
    );
    assert!(results[1].outcome.is_ok());

    // the merge carried exactly one entry, and the failure was swallowed
    assert_eq!(meta.update_calls, 1);
    let update_counts: Vec<usize> = log
        .iter()
        .filter_map(|e| match e {
            Event::UpdateDerivatives { count, .. } => Some(*count),
            _ => None,
        })
        .collect();
    assert_eq!(update_counts, vec![1]);

    let rec = meta.get(&id).unwrap();
    assert_eq!(rec.derivatives.len(), 1);
    assert_eq!(rec.derivatives[0].dim, Dim { width: 1024, height: 768 });
}

#[test]
fn response_precedes_every_derivative_event() {
    let mut obj = MemoryObjectStore::new(base());
    let mut meta = MemoryMetadataStore::new();
    let mut log: Vec<Event> = Vec::new();
    let bytes = sample_png();
    let id = String::from("img1");

    let (r, _results) =
        ingest_and_generate(&mut obj, &mut meta, &mut log, &bytes, &id, 7, &two_sizes());
    assert!(r.is_ok());

    let respond_at = log
        .iter()
        .position(|e| matches!(e, Event::Respond { .. }))
        .unwrap();
    for (i, e) in log.iter().enumerate() {
        match e {
            Event::PutDerivative { .. } | Event::UpdateDerivatives { .. } => {
                assert!(i > respond_at);
            }
            _ => {}
        }
    }
}

#[test]
fn zero_successes_skip_the_update() {
    let mut obj = MemoryObjectStore::new(base());
    let mut meta = MemoryMetadataStore::new();
    let mut log: Vec<Event> = Vec::new();
    let bytes = sample_png();
    let id = String::from("img1");
    obj.fail_key(String::from("images/img1/800x600.jpg"));
    obj.fail_key(String::from("images/img1/1024x768.jpg"));

    let (r, results) =
        ingest_and_generate(&mut obj, &mut meta, &mut log, &bytes, &id, 7, &two_sizes());
    assert!(r.is_ok());
    assert_eq!(results.len(), 2);
    assert!(results.iter().all(|dr| dr.outcome.is_err()));
    assert_eq!(meta.update_calls, 0);
    // an original with no derivatives is a valid terminal state
    let rec = meta.get(&id).unwrap();
    assert!(rec.derivatives.is_empty());
}

#[test]
fn undecodable_bytes_with_valid_signature_keep_the_original() {
    let mut obj = MemoryObjectStore::new(base());
    let mut meta = MemoryMetadataStore::new();
    let mut log: Vec<Event> = Vec::new();
    // a valid PNG signature over bytes that do not decode
    let mut bytes = vec![0x89u8, 0x50, 0x4e, 0x47, 0x0d, 0x0a, 0x1a, 0x0a];
    bytes.extend_from_slice(&[0u8; 32]);
    let id = String::from("img1");

    let (r, results) =
        ingest_and_generate(&mut obj, &mut meta, &mut log, &bytes, &id, 7, &two_sizes());
    assert!(r.is_ok());
    assert!(results.is_empty());
    assert_eq!(meta.update_calls, 0);
    let rec = meta.get(&id).unwrap();
    assert!(rec.derivatives.is_empty());
    assert_eq!(obj.objects.len(), 1);
}

#[test]
fn forced_create_failure_surfaces_after_upload() {
    let mut obj = MemoryObjectStore::new(base());
    let mut meta = MemoryMetadataStore::new();
    let mut log: Vec<Event> = Vec::new();
    let bytes = sample_png();
    let id = String::from("img1");
    meta.fail_create = true;

    let (r, results) =
        ingest_and_generate(&mut obj, &mut meta, &mut log, &bytes, &id, 7, &two_sizes());
    assert_eq!(r.unwrap_err(), IngestError::StorageUnavailable);
    assert!(results.is_empty());
    assert_eq!(meta.create_calls, 1);
    assert!(meta.records.is_empty());
    // the original upload is not rolled back
    assert_eq!(obj.objects.len(), 1);
}

#[test]
fn failed_merge_is_swallowed() {
    let mut obj = MemoryObjectStore::new(base());
    let mut meta = MemoryMetadataStore::new();
    let mut log: Vec<Event> = Vec::new();
    let bytes = sample_png();
    let id = String::from("img1");
    meta.fail_update = true;

    let (r, results) =
        ingest_and_generate(&mut obj, &mut meta, &mut log, &bytes, &id, 7, &two_sizes());
    assert!(r.is_ok());
    assert_eq!(results.len(), 2);
    assert_eq!(meta.update_calls, 1);
    let rec = meta.get(&id).unwrap();
    assert!(rec.derivatives.is_empty());
}

#[test]
fn sync_prefix_alone_stores_and_creates() {
    let mut obj = MemoryObjectStore::new(base());
    let mut meta = MemoryMetadataStore::new();
    let mut log: Vec<Event> = Vec::new();
    let bytes = sample_png();
    let id = String::from("img1");

    let resp = ingest(&mut obj, &mut meta, &mut log, &bytes, &id, 9).unwrap();
    assert_eq!(resp.id, "img1");
    assert_eq!(obj.objects.len(), 1);
    assert_eq!(meta.records.len(), 1);
    assert_eq!(log.len(), 3);
    assert!(matches!(&log[0], Event::PutOriginal { .. }));
    assert!(matches!(&log[1], Event::CreateRecord { .. }));
    assert!(matches!(&log[2], Event::Respond { .. }));

    // the fan-out alone, afterwards
    let results = generate_derivatives(&mut obj, &mut log, &bytes, &id, &two_sizes());
    assert_eq!(results.len(), 2);
    assert_eq!(obj.objects.len(), 3);
}

#[test]
fn out_of_range_sizes_report_encode_failure() {
    let mut obj = MemoryObjectStore::new(base());
    let mut meta = MemoryMetadataStore::new();
    let mut log: Vec<Event> = Vec::new();
    let bytes = sample_png();
    let id = String::from("img1");
    let sizes = vec![
        Dim { width: 0, height: 600 },
        Dim { width: 65536, height: 1 },
        Dim { width: 32, height: 32 },
    ];

    let (r, results) =
        ingest_and_generate(&mut obj, &mut meta, &mut log, &bytes, &id, 7, &sizes);
    assert!(r.is_ok());
    assert_eq!(results.len(), 3);
    assert_eq!(
        results[0].outcome.as_ref().unwrap_err(),
        &DerivativeFailure::EncodeFailed
    );
    assert_eq!(
        results[1].outcome.as_ref().unwrap_err(),
        &DerivativeFailure::EncodeFailed
    );
    assert!(results[2].outcome.is_ok());

    // a refused size is never put, an accepted one exactly once
    let put_keys: Vec<&String> = log
        .iter()
        .filter_map(|e| match e {
            Event::PutDerivative { key } => Some(key),
            _ => None,
        })
        .collect();
    assert_eq!(put_keys.len(), 1);
    assert_eq!(put_keys[0], "images/img1/32x32.jpg");

    let rec = meta.get(&id).unwrap();
    assert_eq!(rec.derivatives.len(), 1);
    assert_eq!(rec.derivatives[0].dim, Dim { width: 32, height: 32 });
}

#[test]
fn each_size_is_put_exactly_once() {
    let mut obj = MemoryObjectStore::new(base());
    let mut meta = MemoryMetadataStore::new();
    let mut log: Vec<Event> = Vec::new();
    let bytes = sample_png();
    let id = String::from("img1");

    let (r, _results) =
        ingest_and_generate(&mut obj, &mut meta, &mut log, &bytes, &id, 7, &two_sizes());
    assert!(r.is_ok());

    let mut put_keys: Vec<String> = log
        .iter()
        .filter_map(|e| match e {
            Event::PutDerivative { key } => Some(key.clone()),
            _ => None,
        })
        .collect();
    assert_eq!(
        put_keys,
        vec![
            String::from("images/img1/800x600.jpg"),
            String::from("images/img1/1024x768.jpg"),
        ]
    );
    put_keys.sort();
    put_keys.dedup();
    assert_eq!(put_keys.len(), 2);
}

#[test]
fn jpeg_input_keeps_its_extension() {
    let img = image::RgbImage::from_pixel(4, 4, image::Rgb([1u8, 2, 3]));
    let dynimg = image::DynamicImage::ImageRgb8(img);
    let mut bytes: Vec<u8> = Vec::new();
    let mut cursor = std::io::Cursor::new(&mut bytes);
    dynimg.write_to(&mut cursor, image::ImageFormat::Jpeg).unwrap();

    let mut obj = MemoryObjectStore::new(base());
    let mut meta = MemoryMetadataStore::new();
    let mut log: Vec<Event> = Vec::new();
    let id = String::from("img1");
    let resp = ingest(&mut obj, &mut meta, &mut log, &bytes, &id, 3).unwrap();
    assert_eq!(
        resp.original_url,
        "https://bucket.s3.amazonaws.com/images/img1.jpg"
    );
}

#[test]
fn ingest_new_draws_a_fresh_identifier() {
    let mut obj = MemoryObjectStore::new(base());
    let mut meta = MemoryMetadataStore::new();
    let mut log: Vec<Event> = Vec::new();
    let bytes = sample_png();

    let (r, _results) =
        ingest_new(&mut obj, &mut meta, &mut log, &bytes, &two_sizes());
    let resp = r.unwrap();
    assert_eq!(resp.id.len(), 36);
    assert!(meta.get(&resp.id).is_ok());
    assert_eq!(
        resp.original_url,
        format!("https://bucket.s3.amazonaws.com/images/{}.png", resp.id)
    );
}
