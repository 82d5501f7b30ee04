use axum_jetpack::config::SizeLimitConfig;

#[test]
fn test_builder_pattern() {
    let config = SizeLimitConfig {
        default_limit: 500,
        specific_limits: Vec::new(),
        wildcard_limits: Vec::new(),
    }
    .with_specific_limit("application/custom", 1000usize)
    .with_wildcard_limit("video/*", 2000usize);

    assert_eq!(config.get_limit_for_content_type("text/plain"), 500);
    assert_eq!(config.get_limit_for_content_type("application/custom"), 1000);
    assert_eq!(config.get_limit_for_content_type("video/mp4"), 2000);
    assert_eq!(config.get_limit_for_content_type("video/avi"), 2000);

    let config2 = SizeLimitConfig {
        default_limit: 100,
        specific_limits: Vec::new(),
        wildcard_limits: Vec::new(),
    }
    .with_wildcard_limit("application/*", 500usize)
    .with_specific_limit("application/json", 1000usize);

    assert_eq!(config2.get_limit_for_content_type("application/xml"), 500);
    assert_eq!(config2.get_limit_for_content_type("application/json"), 1000);
}

#[test]
fn test_exact_match_wins_over_wildcard() {
    let config = SizeLimitConfig::new()
        .with_specific_limit("application/json", 100usize)
        .with_wildcard_limit("application/*", 50usize);

    assert_eq!(config.get_limit_for_content_type("application/json"), 100);
    assert_eq!(config.get_limit_for_content_type("application/xml"), 50);
}

#[test]
fn test_normalization_is_parameter_insensitive() {
    let config = SizeLimitConfig::new()
        .with_default_limit("2mb")
        .with_specific_limit("application/json", "100kb")
        .with_wildcard_limit("image/*", "5mb");

    assert_eq!(config.get_limit_for_content_type("application/json"), 100_000);
    assert_eq!(
        config.get_limit_for_content_type("application/json; charset=utf-8"),
        100_000
    );
    assert_eq!(
        config.get_limit_for_content_type("  Application/JSON ; charset=utf-8"),
        100_000
    );
    assert_eq!(config.get_limit_for_content_type("image/jpeg"), 5_000_000);
    assert_eq!(config.get_limit_for_content_type("IMAGE/PNG"), 5_000_000);
    assert_eq!(config.get_limit_for_content_type("video/mp4"), 2_000_000);
}

#[test]
fn test_repeated_key_replaces_limit() {
    let config = SizeLimitConfig::new()
        .with_specific_limit("application/json", 100usize)
        .with_specific_limit("application/json", 250usize);
    assert_eq!(config.get_limit_for_content_type("application/json"), 250);
}

#[test]
fn test_default_and_clearing() {
    let mut config = SizeLimitConfig::default()
        .with_default_limit("10mb")
        .with_specific_limit("application/json", "100kb")
        .with_wildcard_limit("image/*", "5mb");
    assert_eq!(config.default_limit, 10_000_000);

    config.clear_specific_limits();
    assert!(config.specific_limits.is_empty());
    assert_eq!(config.get_limit_for_content_type("application/json"), 10_000_000);

    config.clear_wildcard_limits();
    assert!(config.wildcard_limits.is_empty());

    config.clear_all_limits();
    assert_eq!(config.default_limit, 1_000_000);

    let config = SizeLimitConfig::with_default("50mb");
    assert_eq!(config.default_limit, 50_000_000);

    let config = SizeLimitConfig::new();
    assert_eq!(config.default_limit, 1_000_000);
    assert_eq!(config.get_limit_for_content_type("anything/else"), 1_000_000);
}

#[test]
fn test_malformed_content_types_fall_back() {
    let config = SizeLimitConfig::new()
        .with_default_limit(300usize)
        .with_wildcard_limit("image/*", 200usize);
    // No subtype: no wildcard key can be formed.
    assert_eq!(config.get_limit_for_content_type("image"), 300);
    assert_eq!(config.get_limit_for_content_type(""), 300);
    assert_eq!(config.get_limit_for_content_type(";charset=utf-8"), 300);
}
