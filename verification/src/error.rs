use vstd::prelude::*;

verus! {

/// Why one connection's exchange was aborted.
///
/// Every cursor or codec failure ends the current exchange at once: there is
/// no retry of a corrupted read and no attempt to resynchronize the stream.
#[derive(Clone, Copy, Debug, PartialEq, Eq, Structural)]
pub enum ProtocolError {
    /// A cursor read asked for more bytes than the buffer still holds.
    BufferExhausted,
    /// A string field held invalid UTF-8, or a varint failed to decode.
    PacketParsing,
    /// The socket failed, or a read returned zero bytes (peer closed).
    StreamError,
}

/// Why a varint could not be decoded: the input ran out, or the continuation
/// bit was still set after the last group the decoder is willing to read.
#[derive(Clone, Copy, Debug, PartialEq, Eq, Structural)]
pub enum VarintError {
    Truncated,
}

impl ProtocolError {
    /// A short description, for diagnostics outside the library.
    pub fn describe(&self) -> (r: &'static str)
        ensures
            *self is BufferExhausted ==> r@ == "buffer exhausted"@,
            *self is PacketParsing ==> r@ == "packet parsing failed"@,
            *self is StreamError ==> r@ == "stream error"@,
    {
        match self {
            ProtocolError::BufferExhausted => "buffer exhausted",
            ProtocolError::PacketParsing => "packet parsing failed",
            ProtocolError::StreamError => "stream error",
        }
    }
}

} // verus!
