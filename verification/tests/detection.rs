use image_ingest::detect::{detect, extension, ContentKind};

#[test]
fn png_signature_detected() {
    let bytes = vec![0x89u8, 0x50, 0x4e, 0x47, 0x0d, 0x0a, 0x1a, 0x0a, 0x00, 0x00];
    assert_eq!(detect(&bytes), ContentKind::Png);
}

#[test]
fn jpeg_signature_detected() {
    let bytes = vec![0xffu8, 0xd8, 0xff, 0xe0, 0x00, 0x10];
    assert_eq!(detect(&bytes), ContentKind::Jpeg);
}

#[test]
fn gif87_signature_detected() {
    let bytes = b"GIF87a trailing payload".to_vec();
    assert_eq!(detect(&bytes), ContentKind::Gif);
}

#[test]
fn gif89_signature_detected() {
    let bytes = b"GIF89a".to_vec();
    assert_eq!(detect(&bytes), ContentKind::Gif);
}

#[test]
fn random_bytes_rejected() {
    let bytes = vec![
        0x3fu8, 0x91, 0x07, 0x5c, 0xaa, 0x01, 0x88, 0x4e, 0x10, 0xfe, 0x72, 0x33, 0x5d, 0xc4,
        0x06, 0x9b,
    ];
    assert_eq!(detect(&bytes), ContentKind::Unsupported);
}

#[test]
fn empty_input_rejected() {
    let bytes: Vec<u8> = Vec::new();
    assert_eq!(detect(&bytes), ContentKind::Unsupported);
}

#[test]
fn truncated_signatures_rejected() {
    assert_eq!(detect(&vec![0x89u8, 0x50]), ContentKind::Unsupported);
    assert_eq!(detect(&vec![0xffu8, 0xd8]), ContentKind::Unsupported);
    assert_eq!(detect(&b"GIF89".to_vec()), ContentKind::Unsupported);
}

#[test]
fn detection_ignores_payload_after_window() {
    let mut a = vec![0x89u8, 0x50, 0x4e, 0x47, 0x0d, 0x0a, 0x1a, 0x0a];
    let mut b = a.clone();
    a.extend_from_slice(&[0u8; 64]);
    b.extend_from_slice(&[0xffu8; 2048]);
    assert_eq!(detect(&a), detect(&b));

    let mut c = vec![0x11u8, 0x22, 0x33, 0x44, 0x55, 0x66, 0x77, 0x88];
    let mut d = c.clone();
    c.push(0x89);
    d.extend_from_slice(&[0x47u8, 0x49, 0x46, 0x38, 0x39, 0x61]);
    assert_eq!(detect(&c), ContentKind::Unsupported);
    assert_eq!(detect(&d), ContentKind::Unsupported);
}

#[test]
fn extension_per_kind() {
    assert_eq!(extension(ContentKind::Jpeg), "jpg");
    assert_eq!(extension(ContentKind::Png), "png");
    assert_eq!(extension(ContentKind::Gif), "gif");
}
