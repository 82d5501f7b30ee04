//! Size enforcement against a body, buffered or chunk by chunk.
//!
//! `StreamEnforcer` is the decision core of the streaming path: a small
//! state value owned by one request's stream wrapper.  The wrapper feeds it
//! one event per poll — a chunk of some size, end-of-stream, or a transport
//! error — and acts on the returned instruction.  Once any violation has been
//! latched, every later event yields end-of-stream and changes nothing, so
//! a wrapper that consults the latch never polls its producer again and
//! never forwards a chunk after a violation.

use vstd::prelude::*;

use crate::error::SizeLimitError;

verus! {

/// Ceiling on a single transport chunk, independent of the configured body
/// limit: 16 MiB.  A tunable guard against one pathologically large chunk.
pub const MAX_INDIVIDUAL_CHUNK_SIZE: usize = 16 * 1024 * 1024;

/// One observation made by a stream wrapper while polling its producer.
#[derive(Debug, Clone, Copy, PartialEq, Eq, Structural)]
pub enum StreamEvent {
    /// The producer yielded a chunk of this many bytes.
    Chunk(usize),
    /// The producer reported end-of-stream.
    End,
    /// The producer reported a transport error.
    TransportError,
}

/// What the stream wrapper must do with the event it just observed.
#[derive(Debug, Clone, PartialEq, Eq)]
pub enum StreamAction {
    /// Forward the chunk to the consumer unchanged.
    Forward,
    /// Yield this violation to the consumer and forward nothing further.
    Violation(SizeLimitError),
    /// Forward the producer's own error, wrapped, and nothing further.
    PropagateError,
    /// Signal end-of-stream to the consumer.
    EndOfStream,
}

/// Per-body enforcement state: the running byte count and the violation
/// latch.  Exclusively owned by one request's stream wrapper.
#[derive(Debug, Clone, Copy, PartialEq, Eq, Structural)]
pub struct StreamEnforcer {
    /// The body limit being enforced, in bytes.
    pub max_size: usize,
    /// Bytes forwarded so far, including any already-validated first chunk.
    pub bytes_read: usize,
    /// Set once a violation has been reported; never cleared.
    pub has_violated: bool,
}

/// `s` with its latch set.
pub open spec fn latched(s: StreamEnforcer) -> StreamEnforcer {
    StreamEnforcer { has_violated: true, ..s }
}

/// The enforcement step: next state and action for one event.
pub open spec fn step_spec(s: StreamEnforcer, e: StreamEvent) -> (StreamEnforcer, StreamAction) {
    if s.has_violated {
        (s, StreamAction::EndOfStream)
    } else {
        match e {
            StreamEvent::Chunk(size) => {
                if size > MAX_INDIVIDUAL_CHUNK_SIZE {
                    (
                        latched(s),
                        StreamAction::Violation(
                            SizeLimitError::ChunkTooLarge {
                                max_chunk_size: MAX_INDIVIDUAL_CHUNK_SIZE,
                                actual_chunk_size: size,
                            },
                        ),
                    )
                } else if s.bytes_read + size > usize::MAX {
                    (latched(s), StreamAction::Violation(SizeLimitError::SizeOverflow))
                } else if s.bytes_read + size > s.max_size {
                    (
                        latched(s),
                        StreamAction::Violation(
                            SizeLimitError::BodyTooLarge {
                                max_size: s.max_size,
                                actual_size: (s.bytes_read + size) as usize,
                            },
                        ),
                    )
                } else {
                    (
                        StreamEnforcer { bytes_read: (s.bytes_read + size) as usize, ..s },
                        StreamAction::Forward,
                    )
                }
            },
            StreamEvent::End => (s, StreamAction::EndOfStream),
            StreamEvent::TransportError => (latched(s), StreamAction::PropagateError),
        }
    }
}

impl StreamEnforcer {
    /// The byte count never runs ahead of the limit.
    pub open spec fn wf(self) -> bool {
        self.bytes_read <= self.max_size
    }

    /// Fresh enforcement state for one body, seeded with the bytes of an
    /// already-validated first chunk.
    pub fn new(max_size: usize, initial_bytes: usize) -> (s: Self)
        requires
            initial_bytes <= max_size,
        ensures
            s == (StreamEnforcer { max_size, bytes_read: initial_bytes, has_violated: false }),
            s.wf(),
    {
        StreamEnforcer { max_size, bytes_read: initial_bytes, has_violated: false }
    }

    /// Whether a violation has been latched; a wrapper that sees `true`
    /// must not poll its producer again.
    pub fn is_latched(&self) -> (r: bool)
        ensures
            r == self.has_violated,
    {
        self.has_violated
    }

    /// Account for one event from the producer and say what the wrapper
    /// must do with it.
    pub fn on_event(&mut self, event: StreamEvent) -> (a: StreamAction)
        ensures
            *final(self) == step_spec(*old(self), event).0,
            a == step_spec(*old(self), event).1,
            old(self).wf() ==> final(self).wf(),
            a == StreamAction::Forward ==> !final(self).has_violated && final(self).bytes_read
                <= final(self).max_size,
    {
        if self.has_violated {
            return StreamAction::EndOfStream;
        }
        match event {
            StreamEvent::Chunk(size) => {
                if size > MAX_INDIVIDUAL_CHUNK_SIZE {
                    self.has_violated = true;
                    return StreamAction::Violation(
                        SizeLimitError::ChunkTooLarge {
                            max_chunk_size: MAX_INDIVIDUAL_CHUNK_SIZE,
                            actual_chunk_size: size,
                        },
                    );
                }
                match self.bytes_read.checked_add(size) {
                    Some(new_total) => {
                        if new_total > self.max_size {
                            self.has_violated = true;
                            StreamAction::Violation(
                                SizeLimitError::BodyTooLarge {
                                    max_size: self.max_size,
                                    actual_size: new_total,
                                },
                            )
                        } else {
                            self.bytes_read = new_total;
                            StreamAction::Forward
                        }
                    },
                    None => {
                        self.has_violated = true;
                        StreamAction::Violation(SizeLimitError::SizeOverflow)
                    },
                }
            },
            StreamEvent::End => StreamAction::EndOfStream,
            StreamEvent::TransportError => {
                self.has_violated = true;
                StreamAction::PropagateError
            },
        }
    }
}

/// The state after a whole sequence of events.
pub open spec fn run_state(s: StreamEnforcer, evs: Seq<StreamEvent>) -> StreamEnforcer
    decreases evs.len(),
{
    if evs.len() == 0 {
        s
    } else {
        run_state(step_spec(s, evs[0]).0, evs.drop_first())
    }
}

/// The actions taken over a whole sequence of events, one per event.
pub open spec fn run_actions(s: StreamEnforcer, evs: Seq<StreamEvent>) -> Seq<StreamAction>
    decreases evs.len(),
{
    if evs.len() == 0 {
        Seq::empty()
    } else {
        seq![step_spec(s, evs[0]).1] + run_actions(step_spec(s, evs[0]).0, evs.drop_first())
    }
}

/// Once the latch is set it is permanent: whatever events follow, the state
/// never changes again and every single poll answers end-of-stream — never
/// another chunk and never another error.
pub proof fn lemma_latch_idempotent(s: StreamEnforcer, evs: Seq<StreamEvent>)
    requires
        s.has_violated,
    ensures
        run_state(s, evs) == s,
        run_actions(s, evs).len() == evs.len(),
        forall|i: int| 0 <= i < evs.len() ==> run_actions(s, evs)[i]
            == StreamAction::EndOfStream,
    decreases evs.len(),
{
    if evs.len() > 0 {
        lemma_latch_idempotent(s, evs.drop_first());
        assert forall|i: int| 0 <= i < evs.len() implies run_actions(s, evs)[i]
            == StreamAction::EndOfStream by {
            if i > 0 {
                assert(run_actions(s, evs)[i] == run_actions(s, evs.drop_first())[i - 1]);
            }
        }
    }
}

/// A violation latched at any point stays latched for the rest of the
/// stream.
pub proof fn lemma_latch_stays_set(s: StreamEnforcer, evs: Seq<StreamEvent>)
    requires
        s.has_violated,
    ensures
        run_state(s, evs).has_violated,
{
    lemma_latch_idempotent(s, evs);
}

proof fn lemma_run_actions_len(s: StreamEnforcer, evs: Seq<StreamEvent>)
    ensures
        run_actions(s, evs).len() == evs.len(),
    decreases evs.len(),
{
    if evs.len() > 0 {
        lemma_run_actions_len(step_spec(s, evs[0]).0, evs.drop_first());
    }
}

/// A violation is reported at most once per body: every poll after the one
/// that yielded a violation answers end-of-stream, so nothing is
/// double-reported.
pub proof fn lemma_violation_reported_once(
    s: StreamEnforcer,
    evs: Seq<StreamEvent>,
    i: int,
    j: int,
)
    requires
        0 <= i < j < evs.len(),
        run_actions(s, evs)[i] matches StreamAction::Violation(_),
    ensures
        run_actions(s, evs)[j] == StreamAction::EndOfStream,
    decreases evs.len(),
{
    let s1 = step_spec(s, evs[0]).0;
    let rest = evs.drop_first();
    lemma_run_actions_len(s1, rest);
    if i == 0 {
        assert(run_actions(s, evs)[0] == step_spec(s, evs[0]).1);
        assert(s1.has_violated);
        lemma_latch_idempotent(s1, rest);
        assert(run_actions(s, evs)[j] == run_actions(s1, rest)[j - 1]);
    } else {
        assert(run_actions(s, evs)[i] == run_actions(s1, rest)[i - 1]);
        lemma_violation_reported_once(s1, rest, i - 1, j - 1);
        assert(run_actions(s, evs)[j] == run_actions(s1, rest)[j - 1]);
    }
}

/// Enforcement keeps the byte count within the limit, over any sequence of
/// events.
pub proof fn lemma_run_preserves_wf(s: StreamEnforcer, evs: Seq<StreamEvent>)
    requires
        s.wf(),
    ensures
        run_state(s, evs).wf(),
    decreases evs.len(),
{
    if evs.len() > 0 {
        lemma_run_preserves_wf(step_spec(s, evs[0]).0, evs.drop_first());
    }
}

/// Validation of a first chunk that the pipeline peeked at before wrapping
/// the rest of the stream: the chunk must respect the individual-chunk
/// ceiling and the body limit; on success the returned count seeds the
/// stream enforcer.
pub fn check_first_chunk(chunk_size: usize, max_size: usize) -> (r: Result<usize, SizeLimitError>)
    ensures
        chunk_size > MAX_INDIVIDUAL_CHUNK_SIZE ==> r == Err::<usize, SizeLimitError>(
            SizeLimitError::ChunkTooLarge {
                max_chunk_size: MAX_INDIVIDUAL_CHUNK_SIZE,
                actual_chunk_size: chunk_size,
            },
        ),
        chunk_size <= MAX_INDIVIDUAL_CHUNK_SIZE && chunk_size > max_size ==> r == Err::<
            usize,
            SizeLimitError,
        >(SizeLimitError::BodyTooLarge { max_size, actual_size: chunk_size }),
        chunk_size <= MAX_INDIVIDUAL_CHUNK_SIZE && chunk_size <= max_size ==> r == Ok::<
            usize,
            SizeLimitError,
        >(chunk_size),
{
    if chunk_size > MAX_INDIVIDUAL_CHUNK_SIZE {
        return Err(
            SizeLimitError::ChunkTooLarge {
                max_chunk_size: MAX_INDIVIDUAL_CHUNK_SIZE,
                actual_chunk_size: chunk_size,
            },
        );
    }
    if chunk_size > max_size {
        return Err(SizeLimitError::BodyTooLarge { max_size, actual_size: chunk_size });
    }
    Ok(chunk_size)
}

/// Validation of a fully buffered body.  `body` is `Some` when the capped
/// read primitive handed the bytes over, `None` when it refused because the
/// cap was hit; a buffer that still exceeds `max_size` is rejected as a
/// second, independent check.  On success the buffer is returned unchanged.
pub fn enforce_buffered(body: Option<Vec<u8>>, max_size: usize) -> (r: Result<
    Vec<u8>,
    SizeLimitError,
>)
    ensures
        body matches Some(b) ==> (b@.len() <= max_size ==> r == Ok::<Vec<u8>, SizeLimitError>(
            b,
        )) && (b@.len() > max_size ==> r == Err::<Vec<u8>, SizeLimitError>(
            SizeLimitError::BodyTooLarge { max_size, actual_size: b@.len() as usize },
        )),
        body is None ==> r == Err::<Vec<u8>, SizeLimitError>(
            SizeLimitError::BodyTooLarge {
                max_size,
                actual_size: if max_size < usize::MAX {
                    (max_size + 1) as usize
                } else {
                    usize::MAX
                },
            },
        ),
{
    match body {
        Some(b) => {
            if b.len() > max_size {
                let n = b.len();
                Err(SizeLimitError::BodyTooLarge { max_size, actual_size: n })
            } else {
                Ok(b)
            }
        },
        None => {
            // The read primitive stopped at its cap, so the exact overflow
            // amount is unknown; report one byte past the limit.
            let actual = if max_size < usize::MAX {
                max_size + 1
            } else {
                usize::MAX
            };
            Err(SizeLimitError::BodyTooLarge { max_size, actual_size: actual })
        },
    }
}

} // verus!
