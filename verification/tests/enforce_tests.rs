use axum_jetpack::enforce::{
    check_first_chunk, enforce_buffered, StreamAction, StreamEnforcer, StreamEvent,
    MAX_INDIVIDUAL_CHUNK_SIZE,
};
use axum_jetpack::error::SizeLimitError;

#[test]
fn test_cumulative_boundary() {
    // Chunks of 40 and 40 against a limit of 50: the first passes at a
    // cumulative 40, the second is rejected at a cumulative 80.
    let mut e = StreamEnforcer::new(50, 0);
    assert_eq!(e.on_event(StreamEvent::Chunk(40)), StreamAction::Forward);
    assert_eq!(e.bytes_read, 40);
    assert_eq!(
        e.on_event(StreamEvent::Chunk(40)),
        StreamAction::Violation(SizeLimitError::BodyTooLarge { max_size: 50, actual_size: 80 })
    );
    assert!(e.has_violated);
}

#[test]
fn test_latch_idempotence() {
    // After a violation, every further poll answers end-of-stream, never
    // another chunk and never another error.
    let mut e = StreamEnforcer::new(10, 0);
    assert_eq!(
        e.on_event(StreamEvent::Chunk(11)),
        StreamAction::Violation(SizeLimitError::BodyTooLarge { max_size: 10, actual_size: 11 })
    );
    assert_eq!(e.on_event(StreamEvent::Chunk(1)), StreamAction::EndOfStream);
    assert_eq!(e.on_event(StreamEvent::TransportError), StreamAction::EndOfStream);
    assert_eq!(e.on_event(StreamEvent::End), StreamAction::EndOfStream);
    assert_eq!(e.on_event(StreamEvent::Chunk(0)), StreamAction::EndOfStream);
    assert_eq!(e.bytes_read, 0);
    assert!(e.has_violated);
}

#[test]
fn test_overflow_guard() {
    // A chunk that would overflow the byte counter yields SizeOverflow,
    // not a wrapped count.
    let mut e = StreamEnforcer::new(usize::MAX, usize::MAX - 10);
    assert_eq!(
        e.on_event(StreamEvent::Chunk(100)),
        StreamAction::Violation(SizeLimitError::SizeOverflow)
    );
    assert!(e.has_violated);
    assert_eq!(e.bytes_read, usize::MAX - 10);
}

#[test]
fn test_chunk_ceiling() {
    let mut e = StreamEnforcer::new(usize::MAX, 0);
    let huge = MAX_INDIVIDUAL_CHUNK_SIZE + 1;
    assert_eq!(
        e.on_event(StreamEvent::Chunk(huge)),
        StreamAction::Violation(SizeLimitError::ChunkTooLarge {
            max_chunk_size: MAX_INDIVIDUAL_CHUNK_SIZE,
            actual_chunk_size: huge,
        })
    );
    assert_eq!(e.on_event(StreamEvent::Chunk(1)), StreamAction::EndOfStream);
}

#[test]
fn test_transport_error_propagates_and_latches() {
    let mut e = StreamEnforcer::new(100, 0);
    assert_eq!(e.on_event(StreamEvent::Chunk(10)), StreamAction::Forward);
    assert_eq!(e.on_event(StreamEvent::TransportError), StreamAction::PropagateError);
    assert!(e.has_violated);
    assert_eq!(e.on_event(StreamEvent::Chunk(1)), StreamAction::EndOfStream);
}

#[test]
fn test_end_of_stream_without_violation() {
    let mut e = StreamEnforcer::new(100, 0);
    assert_eq!(e.on_event(StreamEvent::Chunk(60)), StreamAction::Forward);
    assert_eq!(e.on_event(StreamEvent::Chunk(40)), StreamAction::Forward);
    assert_eq!(e.bytes_read, 100);
    assert_eq!(e.on_event(StreamEvent::End), StreamAction::EndOfStream);
    assert!(!e.has_violated);
}

#[test]
fn test_seeded_counter_continues_from_first_chunk() {
    // A peeked first chunk seeds the cumulative counter.
    assert_eq!(check_first_chunk(30, 50), Ok(30));
    let mut e = StreamEnforcer::new(50, 30);
    assert_eq!(e.on_event(StreamEvent::Chunk(20)), StreamAction::Forward);
    assert_eq!(
        e.on_event(StreamEvent::Chunk(1)),
        StreamAction::Violation(SizeLimitError::BodyTooLarge { max_size: 50, actual_size: 51 })
    );
}

#[test]
fn test_check_first_chunk_rejections() {
    assert_eq!(
        check_first_chunk(60, 50),
        Err(SizeLimitError::BodyTooLarge { max_size: 50, actual_size: 60 })
    );
    let huge = MAX_INDIVIDUAL_CHUNK_SIZE + 7;
    assert_eq!(
        check_first_chunk(huge, usize::MAX),
        Err(SizeLimitError::ChunkTooLarge {
            max_chunk_size: MAX_INDIVIDUAL_CHUNK_SIZE,
            actual_chunk_size: huge,
        })
    );
    assert_eq!(check_first_chunk(0, 0), Ok(0));
}

#[test]
fn test_enforce_buffered() {
    // Within the limit the buffer comes back unchanged.
    let body = vec![7u8; 40];
    assert_eq!(enforce_buffered(Some(body.clone()), 50), Ok(body));

    // Over the limit, rejected with the exact size.
    assert_eq!(
        enforce_buffered(Some(vec![0u8; 100]), 50),
        Err(SizeLimitError::BodyTooLarge { max_size: 50, actual_size: 100 })
    );

    // Exactly at the limit passes.
    let body = vec![1u8; 50];
    assert_eq!(enforce_buffered(Some(body.clone()), 50), Ok(body));

    // A capped read that refused reports one byte past the limit.
    assert_eq!(
        enforce_buffered(None, 50),
        Err(SizeLimitError::BodyTooLarge { max_size: 50, actual_size: 51 })
    );
    assert_eq!(
        enforce_buffered(None, usize::MAX),
        Err(SizeLimitError::BodyTooLarge { max_size: usize::MAX, actual_size: usize::MAX })
    );
}

#[test]
fn test_error_status_codes() {
    assert_eq!(
        SizeLimitError::BodyTooLarge { max_size: 1, actual_size: 2 }.status_code(),
        413
    );
    assert_eq!(
        SizeLimitError::ChunkTooLarge { max_chunk_size: 1, actual_chunk_size: 2 }.status_code(),
        413
    );
    assert_eq!(SizeLimitError::SizeOverflow.status_code(), 400);
    assert_eq!(SizeLimitError::Other(String::from("boom")).status_code(), 400);
}
