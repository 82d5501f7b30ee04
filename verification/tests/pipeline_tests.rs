use axum_jetpack::config::SizeLimitConfig;
use axum_jetpack::enforce::{enforce_buffered, StreamAction, StreamEnforcer, StreamEvent};
use axum_jetpack::error::SizeLimitError;
use axum_jetpack::gate::{check_declared_length, parse_content_length};
use axum_jetpack::middleware::{plan_request, RequestPlan, SizeLimitMiddlewareConfig};
use axum_jetpack::strategy::BufferStrategy;

/// Drive one request through the planned pipeline: plan from the headers,
/// then run the body through the buffered or streaming enforcer, and
/// report the resulting HTTP status (200 on success).
fn run_request(
    config: &SizeLimitConfig,
    strategy: &BufferStrategy,
    content_type: Option<&str>,
    content_length: Option<&str>,
    body: &[u8],
) -> u16 {
    match plan_request(config, strategy, content_type, content_length) {
        RequestPlan::Reject(e) => e.status_code(),
        RequestPlan::Buffered(limit) => {
            // The capped read refuses a body past the limit.
            let read = if body.len() > limit { None } else { Some(body.to_vec()) };
            match enforce_buffered(read, limit) {
                Ok(_) => 200,
                Err(e) => e.status_code(),
            }
        }
        RequestPlan::Streamed(limit) => {
            let mut enforcer = StreamEnforcer::new(limit, 0);
            // Feed the body in chunks of at most 32 bytes.
            for chunk in body.chunks(32) {
                match enforcer.on_event(StreamEvent::Chunk(chunk.len())) {
                    StreamAction::Forward => {}
                    StreamAction::Violation(e) => return e.status_code(),
                    StreamAction::PropagateError => return 400,
                    StreamAction::EndOfStream => return 200,
                }
            }
            match enforcer.on_event(StreamEvent::End) {
                StreamAction::EndOfStream => 200,
                StreamAction::Violation(e) => e.status_code(),
                _ => 400,
            }
        }
    }
}

#[test]
fn test_early_rejection_before_any_body_byte() {
    // A declared length of 1000 against a limit of 50 rejects with 413
    // without reading the body.
    let config = SizeLimitConfig::new().with_default_limit(50usize);
    let strategy = BufferStrategy::with_defaults();
    let plan = plan_request(&config, &strategy, Some("application/json"), Some("1000"));
    assert_eq!(
        plan,
        RequestPlan::Reject(SizeLimitError::BodyTooLarge { max_size: 50, actual_size: 1000 })
    );
    assert_eq!(
        check_declared_length(Some(1000), 50),
        Some(SizeLimitError::BodyTooLarge { max_size: 50, actual_size: 1000 })
    );
}

#[test]
fn test_scenario_buffered_over_limit() {
    // default_limit=50, a 100-byte JSON body on the buffered path: 413.
    let config = SizeLimitConfig::new().with_default_limit(50usize);
    let strategy = BufferStrategy::with_defaults();
    let status = run_request(&config, &strategy, Some("application/json"), None, &[0u8; 100]);
    assert_eq!(status, 413);
}

#[test]
fn test_scenario_buffered_within_limit() {
    // default_limit=1024, a small JSON body: 200.
    let config = SizeLimitConfig::new().with_default_limit(1024usize);
    let strategy = BufferStrategy::with_defaults();
    let body = br#"{"data":"test"}"#;
    let status = run_request(&config, &strategy, Some("application/json"), None, body);
    assert_eq!(status, 200);
}

#[test]
fn test_scenario_streamed_wildcard_limit() {
    // wildcard_limits={"image/*":200}: a 180-byte image streams through,
    // a 220-byte image is rejected with 413.
    let config = SizeLimitConfig::new().with_wildcard_limit("image/*", 200usize);
    let strategy = BufferStrategy::with_defaults();
    assert_eq!(
        run_request(&config, &strategy, Some("image/jpeg"), None, &[0u8; 180]),
        200
    );
    assert_eq!(
        run_request(&config, &strategy, Some("image/jpeg"), None, &[0u8; 220]),
        413
    );
}

#[test]
fn test_scenario_declared_length_trumps_actual_body() {
    // content-length: 1000 with a 10-byte body and default_limit=50:
    // rejected on the declared length alone.
    let config = SizeLimitConfig::new().with_default_limit(50usize);
    let strategy = BufferStrategy::with_defaults();
    let status = run_request(&config, &strategy, Some("text/plain"), Some("1000"), &[0u8; 10]);
    assert_eq!(status, 413);
}

#[test]
fn test_absent_content_type_uses_octet_stream() {
    // No content type: the sentinel application/octet-stream streams by
    // default and takes its configured limit.
    let config = SizeLimitConfig::new()
        .with_default_limit(100usize)
        .with_specific_limit("application/octet-stream", 10usize);
    let strategy = BufferStrategy::with_defaults();
    assert_eq!(plan_request(&config, &strategy, None, None), RequestPlan::Streamed(10));
    assert_eq!(run_request(&config, &strategy, None, None, &[0u8; 11]), 413);
    assert_eq!(run_request(&config, &strategy, None, None, &[0u8; 9]), 200);
}

#[test]
fn test_unparsable_content_length_passes_through() {
    // A malformed declared length is treated as absent and enforcement
    // falls to the body enforcers.
    let config = SizeLimitConfig::new().with_default_limit(50usize);
    let strategy = BufferStrategy::with_defaults();
    assert_eq!(
        plan_request(&config, &strategy, Some("text/plain"), Some("not-a-number")),
        RequestPlan::Buffered(50)
    );
    assert_eq!(
        run_request(&config, &strategy, Some("text/plain"), Some("not-a-number"), &[0u8; 60]),
        413
    );
}

#[test]
fn test_parse_content_length_values() {
    assert_eq!(parse_content_length("123"), Some(123));
    assert_eq!(parse_content_length("+5"), Some(5));
    assert_eq!(parse_content_length("0"), Some(0));
    assert_eq!(parse_content_length(""), None);
    assert_eq!(parse_content_length("+"), None);
    assert_eq!(parse_content_length("-1"), None);
    assert_eq!(parse_content_length("12a"), None);
    assert_eq!(parse_content_length(" 12"), None);
    assert_eq!(parse_content_length("99999999999999999999999999"), None);
    assert_eq!(parse_content_length(&usize::MAX.to_string()), Some(usize::MAX));
}

#[test]
fn test_simple_size_check() {
    // 123-byte bodies against default 100, application/json at 150 and
    // image/* at 200.
    let config = SizeLimitConfig {
        default_limit: 100,
        specific_limits: Vec::new(),
        wildcard_limits: Vec::new(),
    }
    .with_specific_limit("application/json", 150usize)
    .with_wildcard_limit("image/*", 200usize);
    let strategy = BufferStrategy::with_defaults();

    let body = vec![0u8; 123];
    let cases: Vec<(Option<&str>, u16)> = vec![
        (None, 413),
        (Some("text/plain"), 413),
        (Some("application/json"), 200),
        (Some("image/jpeg"), 200),
        (Some("image/png"), 200),
    ];
    for (content_type, expected) in cases {
        let status = run_request(&config, &strategy, content_type, None, &body);
        assert_eq!(status, expected, "content type {:?}", content_type);
    }
}

#[test]
fn test_wildcard_matching() {
    let config = SizeLimitConfig {
        default_limit: 100,
        specific_limits: Vec::new(),
        wildcard_limits: Vec::new(),
    }
    .with_wildcard_limit("image/*", 200usize)
    .with_wildcard_limit("application/*", 300usize)
    .with_specific_limit("application/json", 150usize);
    let strategy = BufferStrategy::with_defaults();

    let cases: Vec<(&str, usize, bool)> = vec![
        ("image/jpeg", 180, true),
        ("image/jpeg", 220, false),
        ("image/png", 190, true),
        ("application/pdf", 280, true),
        ("application/pdf", 320, false),
        ("application/json", 140, true),
        ("application/json", 160, false),
        ("text/plain", 90, true),
        ("text/plain", 110, false),
        ("unknown/type", 95, true),
        ("unknown/type", 105, false),
    ];
    for (content_type, size, should_succeed) in cases {
        let status = run_request(&config, &strategy, Some(content_type), None, &vec![0u8; size]);
        let expected = if should_succeed { 200 } else { 413 };
        assert_eq!(status, expected, "{} at {} bytes", content_type, size);
    }
}

#[test]
fn test_priority_matching() {
    let config = SizeLimitConfig {
        default_limit: 100,
        specific_limits: Vec::new(),
        wildcard_limits: Vec::new(),
    }
    .with_wildcard_limit("application/*", 200usize)
    .with_specific_limit("application/json", 300usize)
    .with_specific_limit("application/pdf", 400usize);
    let strategy = BufferStrategy::with_defaults();

    let cases: Vec<(&str, usize, bool)> = vec![
        ("application/json", 250, true),
        ("application/json", 350, false),
        ("application/pdf", 350, true),
        ("application/xml", 180, true),
        ("application/xml", 220, false),
    ];
    for (content_type, size, should_succeed) in cases {
        let status = run_request(&config, &strategy, Some(content_type), None, &vec![0u8; size]);
        let expected = if should_succeed { 200 } else { 413 };
        assert_eq!(status, expected, "{} at {} bytes", content_type, size);
    }
}

#[test]
fn test_streaming_all_content_types() {
    // With an all-streaming strategy every content type goes through the
    // streaming enforcer under its resolved limit.
    let config = SizeLimitConfig {
        default_limit: 100,
        specific_limits: Vec::new(),
        wildcard_limits: Vec::new(),
    }
    .with_specific_limit("application/json", 150usize)
    .with_wildcard_limit("image/*", 200usize);
    let strategy = BufferStrategy::all_streamed();

    let cases: Vec<(&str, usize, u16)> = vec![
        ("application/json", 80, 200),
        ("application/json", 160, 413),
        ("text/plain", 90, 200),
        ("text/plain", 110, 413),
    ];
    for (content_type, size, expected) in cases {
        let plan = plan_request(&config, &strategy, Some(content_type), None);
        assert!(matches!(plan, RequestPlan::Streamed(_)));
        let status = run_request(&config, &strategy, Some(content_type), None, &vec![0u8; size]);
        assert_eq!(status, expected, "{} at {} bytes", content_type, size);
    }
}

#[test]
fn test_middleware_config_builders() {
    let cfg = SizeLimitMiddlewareConfig::default()
        .with_buffered_types(&["application/custom+json"])
        .with_streamed_types(&["model/gltf-binary"])
        .with_default_buffered(true);
    assert!(cfg.buffer_strategy.should_buffer("application/custom+json"));
    assert!(!cfg.buffer_strategy.should_buffer("model/gltf-binary"));
    assert!(cfg.buffer_strategy.should_buffer("completely/unknown"));

    let limits = SizeLimitConfig::new().with_default_limit(7usize);
    let cfg = SizeLimitMiddlewareConfig::new(limits);
    assert_eq!(cfg.size_limits.default_limit, 7);
    assert!(!cfg.buffer_strategy.should_buffer("application/json"));

    let limits = SizeLimitConfig::new().with_default_limit(9usize);
    let cfg = SizeLimitMiddlewareConfig::with_default_buffer_strategy(limits);
    assert!(cfg.buffer_strategy.should_buffer("application/json"));

    let strategy = BufferStrategy::all_buffered();
    let cfg = SizeLimitMiddlewareConfig::default().with_buffer_strategy(strategy);
    assert!(cfg.buffer_strategy.should_buffer("video/mp4"));
}
