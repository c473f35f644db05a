use cold_tools::readfile::{binary_extensions, compute_hash, image_extensions};

#[test]
fn test_binary_extension_detection() {
    assert!(binary_extensions().contains(&"png"));
    assert!(binary_extensions().contains(&"zip"));
    assert!(!binary_extensions().contains(&"rs"));
}

#[test]
fn test_image_extension_detection() {
    assert!(image_extensions().contains(&"png"));
    assert!(image_extensions().contains(&"svg"));
    assert!(!image_extensions().contains(&"zip"));
}

#[test]
fn test_compute_hash_deterministic() {
    let data = b"hello world";
    let h1 = compute_hash(data);
    let h2 = compute_hash(data);
    assert_eq!(h1, h2);
}

#[test]
fn test_compute_hash_different() {
    let h1 = compute_hash(b"hello");
    let h2 = compute_hash(b"world");
    assert_ne!(h1, h2);
}
