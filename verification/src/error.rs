use vstd::prelude::*;

verus! {

/// The error kinds a session can end with. Every session-fatal error
/// converges on the same cleanup path in the surrounding runtime: close
/// the socket, stop the segmenter, release the stream-key slot.
#[derive(Clone, Copy, Debug, PartialEq, Eq, Structural)]
pub enum StreamError {
    /// The first handshake byte was not version 3.
    HandshakeVersionMismatch,
    /// A handshake block ended early or had the wrong length.
    HandshakeTruncated,
    /// Invalid format bits or a truncated chunk header.
    MalformedChunkHeader,
    /// A Set Chunk Size payload carried 0 or a value above 0x7FFFFFFF.
    ChunkSizeOutOfRange,
    /// An AMF0 payload had an unexpected marker or ended early.
    AmfDecodeError,
    /// A command arrived in a phase where it cannot be honored.
    CommandNotApplicable,
    /// A stream key was empty, too long, or held a path separator.
    StreamKeyInvalid,
    /// Another active publisher already holds the stream key.
    StreamKeyBusy,
    /// The concurrent publisher cap was reached.
    MaxStreamsExceeded,
    /// The segmenter child process could not be started.
    SegmenterSpawnFailure,
    /// A write to the segmenter's input pipe failed.
    SegmenterPipeClosed,
    /// A read deadline expired while still handshaking.
    IoTimeout,
}

} // verus!
