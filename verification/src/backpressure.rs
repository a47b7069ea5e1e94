//! Backpressure of one event stream: when a slow consumer counts as stalled,
//! and when a stalled stream is given up.
//!
//! Committed state is never touched: only the forwarder of the stalled stream
//! stops. Times are milliseconds of a clock that does not run backwards.

use crate::scheduler::{greatest, least};
use vstd::prelude::*;

verus! {

/// Chunks that the stream's channel holds.
pub const STREAM_CHANNEL_SLOTS: u64 = 32;

/// The stream's consumer is stalled.
#[derive(Debug, Clone, Copy, PartialEq, Eq, Structural)]
pub struct StreamStallError;

impl StreamStallError {
    /// The error as text.
    pub fn message(&self) -> (r: String)
        ensures
            r@ == "stream consumer stalled beyond byte bound and timeout"@,
    {
        "stream consumer stalled beyond byte bound and timeout".to_owned()
    }
}

/// What came of offering a chunk to the channel without waiting.
#[derive(Debug, Clone, Copy, PartialEq, Eq, Structural)]
pub enum TrySend {
    Sent,
    /// The channel is full.
    Full,
    /// The consumer has gone.
    Closed,
}

/// What to do after offering a chunk.
#[derive(Debug, Clone, Copy, PartialEq, Eq, Structural)]
pub enum SendStep {
    /// The chunk is on its way.
    Sent,
    /// The channel is full but little is pending: wait for room.
    Wait,
    /// The consumer is stalled: the chunk is dropped.
    Stalled,
}

/// Guard of one stream.
#[derive(Debug, Clone, Copy, PartialEq, Eq, Structural)]
pub struct StreamBackpressure {
    pub forwarded_bytes: u64,
    pub forwarded_chunks: u64,
    /// Pending bytes at which a full channel counts as a stall.
    pub buffer_bytes: u64,
    /// Longest stall.
    pub stall_timeout_ms: u64,
    /// When the stall began.
    pub stall_started: Option<u64>,
    pub stalled: bool,
}

/// A sum of bytes or chunks, at most the largest word.
pub open spec fn counted(a: int, b: int) -> int {
    least(a + b, u64::MAX as int)
}

impl StreamBackpressure {
    /// Nothing forwarded, not stalled.
    pub fn new(buffer_bytes: u64, stall_timeout_ms: u64) -> (r: StreamBackpressure)
        ensures
            r == (StreamBackpressure {
                forwarded_bytes: 0,
                forwarded_chunks: 0,
                buffer_bytes,
                stall_timeout_ms,
                stall_started: None,
                stalled: false,
            }),
    {
        StreamBackpressure {
            forwarded_bytes: 0,
            forwarded_chunks: 0,
            buffer_bytes,
            stall_timeout_ms,
            stall_started: None,
            stalled: false,
        }
    }

    /// Whether the consumer is stalled.
    pub fn is_stalled(&self) -> (r: bool)
        ensures
            r == self.stalled,
    {
        self.stalled
    }

    /// Bytes forwarded so far.
    pub fn forwarded_bytes(&self) -> (r: u64)
        ensures
            r == self.forwarded_bytes,
    {
        self.forwarded_bytes
    }

    /// Bytes pending in a full channel: as many chunks as it holds, each of
    /// the average size of those forwarded.
    pub open spec fn pending(self) -> int {
        if self.forwarded_bytes == 0 || self.forwarded_chunks == 0 {
            0
        } else {
            least(
                STREAM_CHANNEL_SLOTS * (self.forwarded_bytes as int
                    / self.forwarded_chunks as int),
                u64::MAX as int,
            )
        }
    }

    fn estimate_pending_bytes(&self) -> (r: u64)
        ensures
            r == self.pending(),
    {
        if self.forwarded_bytes == 0 || self.forwarded_chunks == 0 {
            return 0;
        }
        let average: u64 = self.forwarded_bytes / self.forwarded_chunks;
        match STREAM_CHANNEL_SLOTS.checked_mul(average) {
            Some(n) => n,
            None => u64::MAX,
        }
    }

    /// The guard once a chunk is on its way.
    pub open spec fn after_sent(self, chunk_bytes: u64) -> StreamBackpressure {
        StreamBackpressure {
            forwarded_bytes: counted(self.forwarded_bytes as int, chunk_bytes as int) as u64,
            forwarded_chunks: counted(self.forwarded_chunks as int, 1) as u64,
            ..self
        }
    }

    fn note_sent(&mut self, chunk_bytes: u64)
        ensures
            *final(self) == old(self).after_sent(chunk_bytes),
    {
        self.forwarded_bytes = self.forwarded_bytes.saturating_add(chunk_bytes);
        self.forwarded_chunks = self.forwarded_chunks.saturating_add(1);
    }

    /// Whether a chunk may be offered: not while the consumer is stalled, for
    /// it must drain first.
    pub fn before_send(&self) -> (r: Result<(), StreamStallError>)
        ensures
            r is Err <==> self.stalled,
    {
        if self.stalled {
            Err(StreamStallError)
        } else {
            Ok(())
        }
    }

    /// The guard after a chunk was offered, and what to do.
    pub open spec fn offered(self, outcome: TrySend, chunk_bytes: u64, now_ms: u64) -> (
        StreamBackpressure,
        SendStep,
    ) {
        match outcome {
            TrySend::Sent => (self.after_sent(chunk_bytes), SendStep::Sent),
            TrySend::Full => if self.pending() >= self.buffer_bytes {
                (
                    StreamBackpressure {
                        stalled: true,
                        stall_started: Some(now_ms),
                        ..self
                    },
                    SendStep::Stalled,
                )
            } else {
                (self, SendStep::Wait)
            },
            TrySend::Closed => (StreamBackpressure { stalled: true, ..self }, SendStep::Stalled),
        }
    }

    /// What follows from offering a chunk. A full channel with enough pending
    /// bytes is a stall, which begins now; with less the caller waits for room.
    /// A consumer that has gone counts as stalled.
    pub fn on_try_send(&mut self, outcome: TrySend, chunk_bytes: u64, now_ms: u64) -> (r: SendStep)
        ensures
            (*final(self), r) == old(self).offered(outcome, chunk_bytes, now_ms),
    {
        match outcome {
            TrySend::Sent => {
                self.note_sent(chunk_bytes);
                SendStep::Sent
            },
            TrySend::Full => {
                if self.estimate_pending_bytes() >= self.buffer_bytes {
                    self.stalled = true;
                    self.stall_started = Some(now_ms);
                    SendStep::Stalled
                } else {
                    SendStep::Wait
                }
            },
            TrySend::Closed => {
                self.stalled = true;
                SendStep::Stalled
            },
        }
    }

    /// What follows from waiting for room: the chunk is on its way, or the
    /// consumer has gone.
    pub fn on_waited(&mut self, delivered: bool, chunk_bytes: u64) -> (r: Result<
        (),
        StreamStallError,
    >)
        ensures
            r is Ok <==> delivered,
            *final(self) == if delivered {
                old(self).after_sent(chunk_bytes)
            } else {
                StreamBackpressure { stalled: true, ..*old(self) }
            },
    {
        if delivered {
            self.note_sent(chunk_bytes);
            Ok(())
        } else {
            self.stalled = true;
            Err(StreamStallError)
        }
    }

    /// The consumer has drained: the stall is over.
    pub fn clear_stall(&mut self)
        ensures
            *final(self) == (StreamBackpressure {
                stalled: false,
                stall_started: None,
                ..*old(self)
            }),
    {
        self.stalled = false;
        self.stall_started = None;
    }

    /// The stall has lasted as long as it may.
    pub open spec fn expired(self, now_ms: u64) -> bool {
        match self.stall_started {
            Some(t) => greatest(now_ms - t, 0) >= self.stall_timeout_ms,
            None => false,
        }
    }

    /// Whether the stall has lasted as long as it may.
    pub fn check_stall_timeout(&self, now_ms: u64) -> (r: bool)
        ensures
            r == self.expired(now_ms),
    {
        match self.stall_started {
            Some(t) => now_ms.saturating_sub(t) >= self.stall_timeout_ms,
            None => false,
        }
    }

    /// Whether the stream is given up: stalled, and for too long.
    pub fn must_abort(&self, now_ms: u64) -> (r: bool)
        ensures
            r == (self.stalled && self.expired(now_ms)),
    {
        self.stalled && self.check_stall_timeout(now_ms)
    }
}

/// A stall drops the chunk and nothing else: what was forwarded stays counted,
/// and no chunk may be offered until the stall is cleared.
pub proof fn law_stall_keeps_what_was_forwarded(
    g: StreamBackpressure,
    outcome: TrySend,
    chunk_bytes: u64,
    now_ms: u64,
)
    requires
        g.offered(outcome, chunk_bytes, now_ms).1 == SendStep::Stalled,
    ensures
        ({
            let after = g.offered(outcome, chunk_bytes, now_ms).0;
            &&& after.stalled
            &&& after.forwarded_bytes == g.forwarded_bytes
            &&& after.forwarded_chunks == g.forwarded_chunks
        }),
{
}

/// A stalled stream is given up exactly when the timeout has passed since the
/// stall began.
pub proof fn law_stalled_streams_are_given_up(
    g: StreamBackpressure,
    chunk_bytes: u64,
    began_ms: u64,
    now_ms: u64,
)
    requires
        g.offered(TrySend::Full, chunk_bytes, began_ms).1 == SendStep::Stalled,
        began_ms <= now_ms,
    ensures
        ({
            let after = g.offered(TrySend::Full, chunk_bytes, began_ms).0;
            (after.stalled && after.expired(now_ms)) == (now_ms - began_ms
                >= g.stall_timeout_ms)
        }),
{
}

/// A chunk that was sent is counted, and a stream that takes its chunks is never
/// stalled by it.
pub proof fn law_sent_chunks_are_counted(g: StreamBackpressure, chunk_bytes: u64, now_ms: u64)
    requires
        g.forwarded_bytes + chunk_bytes <= u64::MAX,
        g.forwarded_chunks < u64::MAX,
    ensures
        ({
            let (after, step) = g.offered(TrySend::Sent, chunk_bytes, now_ms);
            &&& step == SendStep::Sent
            &&& after.forwarded_bytes == g.forwarded_bytes + chunk_bytes
            &&& after.forwarded_chunks == g.forwarded_chunks + 1
            &&& after.stalled == g.stalled
            &&& after.stall_started == g.stall_started
            &&& after.buffer_bytes == g.buffer_bytes
            &&& after.stall_timeout_ms == g.stall_timeout_ms
        }),
{
}

/// A full channel is a stall exactly where it holds at least the buffer's bytes:
/// all of its slots at the average size of the chunks sent. Below that the sender
/// waits and nothing changes.
pub proof fn law_full_channels_stall_at_the_buffer(
    g: StreamBackpressure,
    chunk_bytes: u64,
    now_ms: u64,
    average: int,
    rest: int,
)
    requires
        g.forwarded_chunks > 0,
        average >= 0,
        0 <= rest < g.forwarded_chunks,
        g.forwarded_bytes == average * g.forwarded_chunks + rest,
        STREAM_CHANNEL_SLOTS * average <= u64::MAX,
    ensures
        ({
            let (after, step) = g.offered(TrySend::Full, chunk_bytes, now_ms);
            &&& STREAM_CHANNEL_SLOTS * average >= g.buffer_bytes ==> step == SendStep::Stalled
                && after.stalled && after.stall_started == Some(now_ms)
            &&& STREAM_CHANNEL_SLOTS * average < g.buffer_bytes ==> step == SendStep::Wait
                && after == g
        }),
{
    vstd::arithmetic::div_mod::lemma_fundamental_div_mod_converse(
        g.forwarded_bytes as int,
        g.forwarded_chunks as int,
        average,
        rest,
    );
    if g.forwarded_bytes == 0 {
        assert(average == 0) by (nonlinear_arith)
            requires
                0 == average * g.forwarded_chunks + rest,
                average >= 0,
                rest >= 0,
                g.forwarded_chunks > 0,
        ;
    }
}

/// A consumer that has gone stalls the stream for good: there is no stall to wait
/// out.
pub proof fn law_gone_consumers_stall_the_stream(
    g: StreamBackpressure,
    chunk_bytes: u64,
    now_ms: u64,
)
    ensures
        g.offered(TrySend::Closed, chunk_bytes, now_ms).1 == SendStep::Stalled,
        g.offered(TrySend::Closed, chunk_bytes, now_ms).0.stalled,
        g.offered(TrySend::Closed, chunk_bytes, now_ms).0.stall_started == g.stall_started,
{
}

/// A stall is timed from its beginning: one that never began does not expire, and
/// one that did expires with the timeout and not before.
pub proof fn law_stalls_are_timed_from_their_beginning(g: StreamBackpressure, now_ms: u64)
    ensures
        g.stall_started is None ==> !g.expired(now_ms),
        g.stall_started is Some && now_ms >= g.stall_started->Some_0 ==> (g.expired(now_ms)
            <==> now_ms - g.stall_started->Some_0 >= g.stall_timeout_ms),
{
}

} // verus!
