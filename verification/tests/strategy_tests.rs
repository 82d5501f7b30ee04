use axum_jetpack::strategy::BufferStrategy;

#[test]
fn test_buffering_precedence() {
    // An exact buffered match wins over a streamed wildcard for the same
    // type; the wildcard still decides for other subtypes.
    let strategy = BufferStrategy::new()
        .with_buffered_types(&["application/json"])
        .with_streamed_types(&["application/*"]);

    assert!(strategy.should_buffer("application/json"));
    assert!(!strategy.should_buffer("application/xml"));
}

#[test]
fn test_exact_streamed_wins_over_buffered_wildcard() {
    let strategy = BufferStrategy::new()
        .with_streamed_types(&["application/json"])
        .with_buffered_types(&["application/*"]);

    assert!(!strategy.should_buffer("application/json"));
    assert!(strategy.should_buffer("application/xml"));
}

#[test]
fn test_with_defaults_strategy() {
    let strategy = BufferStrategy::with_defaults();
    assert!(strategy.should_buffer("application/json"));
    assert!(strategy.should_buffer("application/json; charset=utf-8"));
    assert!(strategy.should_buffer("text/plain"));
    assert!(strategy.should_buffer("multipart/form-data"));
    assert!(!strategy.should_buffer("video/mp4"));
    assert!(!strategy.should_buffer("image/png"));
    assert!(!strategy.should_buffer("audio/ogg"));
    assert!(!strategy.should_buffer("application/octet-stream"));
    // Unmatched types are streamed by default.
    assert!(!strategy.should_buffer("model/gltf-binary"));
}

#[test]
fn test_all_buffered_and_all_streamed() {
    let buffered = BufferStrategy::all_buffered();
    assert!(buffered.should_buffer("video/mp4"));
    assert!(buffered.should_buffer("whatever/else"));

    let streamed = BufferStrategy::all_streamed();
    assert!(!streamed.should_buffer("application/json"));
    assert!(!streamed.should_buffer("whatever/else"));
}

#[test]
fn test_default_toggle_and_clearing() {
    let mut strategy = BufferStrategy::with_defaults().with_default_buffered(true);
    assert!(strategy.should_buffer("model/gltf-binary"));

    strategy.clear_streamed_types();
    assert!(strategy.should_buffer("video/mp4"));

    strategy.clear_buffered_types();
    assert!(strategy.should_buffer("application/json"));

    let mut strategy = BufferStrategy::with_defaults();
    strategy.clear_all_types();
    assert!(!strategy.should_buffer("application/json"));
}

#[test]
fn test_case_insensitive_matching() {
    let strategy = BufferStrategy::new().with_buffered_types(&["application/json"]);
    assert!(strategy.should_buffer("Application/JSON"));
    assert!(strategy.should_buffer("APPLICATION/JSON; charset=utf-8"));
    assert!(!strategy.should_buffer("application/jsonx"));
}
