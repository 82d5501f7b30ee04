use axum_jetpack::config::SizeLimitConfig;
use axum_jetpack::service::{extract_actual_size_from_error, SizeLimitLayer, SizeLimitService};

#[test]
fn test_extract_actual_size_from_error() {
    assert_eq!(
        extract_actual_size_from_error("length limit exceeded: got 123 bytes"),
        Some(123)
    );
    assert_eq!(extract_actual_size_from_error("got 7"), Some(7));
    assert_eq!(extract_actual_size_from_error("got   456 bytes"), Some(456));
    assert_eq!(extract_actual_size_from_error("Body too large"), None);
    assert_eq!(extract_actual_size_from_error("got abc bytes"), None);
    assert_eq!(extract_actual_size_from_error("got "), None);
    assert_eq!(extract_actual_size_from_error(""), None);
    // Only the first marker counts.
    assert_eq!(
        extract_actual_size_from_error("got one, got 2 bytes"),
        None
    );
}

#[test]
fn test_layer_and_service_construction() {
    let config = SizeLimitConfig::new().with_default_limit(64usize);
    let layer = SizeLimitLayer::new(config);
    assert_eq!(layer.config().default_limit, 64);

    let service = layer.into_service("inner");
    assert_eq!(service.config().default_limit, 64);
    assert_eq!(*service.inner(), "inner");

    let config = SizeLimitConfig::new().with_default_limit(32usize);
    let service = SizeLimitService::new(5u32, config);
    assert_eq!(service.config().default_limit, 32);
    assert_eq!(*service.inner(), 5);
}
