use image_ingest::keys::{derivative_key, object_url, original_key, size_key, u32_string, Dim};

#[test]
fn decimal_formatting_exact() {
    assert_eq!(u32_string(0), "0");
    assert_eq!(u32_string(7), "7");
    assert_eq!(u32_string(42), "42");
    assert_eq!(u32_string(600), "600");
    assert_eq!(u32_string(1080), "1080");
    assert_eq!(u32_string(u32::MAX), "4294967295");
}

#[test]
fn size_key_exact() {
    assert_eq!(size_key(Dim { width: 800, height: 600 }), "800x600");
    assert_eq!(size_key(Dim { width: 1024, height: 768 }), "1024x768");
    assert_eq!(size_key(Dim { width: 1, height: 11 }), "1x11");
    assert_eq!(size_key(Dim { width: 11, height: 1 }), "11x1");
}

#[test]
fn original_key_exact() {
    let id = String::from("abc");
    let ext = String::from("png");
    assert_eq!(original_key(&id, &ext), "images/abc.png");
}

#[test]
fn derivative_key_exact() {
    let id = String::from("abc");
    assert_eq!(
        derivative_key(&id, Dim { width: 800, height: 600 }),
        "images/abc/800x600.jpg"
    );
}

#[test]
fn object_url_is_base_then_key() {
    let base = String::from("https://bucket.s3.amazonaws.com/");
    let key = String::from("images/abc.png");
    assert_eq!(
        object_url(&base, &key),
        "https://bucket.s3.amazonaws.com/images/abc.png"
    );
}

#[test]
fn keys_of_one_ingestion_never_collide() {
    let id = String::from("abc");
    let ext = String::from("jpg");
    let orig = original_key(&id, &ext);
    let d1 = derivative_key(&id, Dim { width: 800, height: 600 });
    let d2 = derivative_key(&id, Dim { width: 1024, height: 768 });
    assert_ne!(orig, d1);
    assert_ne!(orig, d2);
    assert_ne!(d1, d2);
}
