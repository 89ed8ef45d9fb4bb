//! An in-memory byte stream: the ordered, reliable channel that the codec and
//! the upgrades read from and write to.

use vstd::prelude::*;
use vstd::slice::slice_subrange;

verus! {

/// Why an operation on a stream failed.
#[derive(Debug, Clone, Copy, PartialEq, Eq, Structural)]
pub enum StreamError {
    /// The transport refused the operation: the stream was shut for writing.
    Transport,
    /// The stream ended before an expected record was complete.
    UnexpectedEof,
    /// The bytes are there but are no valid record or message.
    Decode,
}

/// Appends `bytes` to `out`.
pub fn append_bytes(out: &mut Vec<u8>, bytes: &[u8])
    ensures
        final(out)@ == old(out)@ + bytes@,
{
    let ghost before = out@;
    let mut i: usize = 0;
    while i < bytes.len()
        invariant
            i <= bytes.len(),
            out@ == before + bytes@.subrange(0, i as int),
        decreases bytes.len() - i,
    {
        proof {
            assert((before + bytes@.subrange(0, i as int)).push(bytes@[i as int]) =~= before
                + bytes@.subrange(0, i + 1));
        }
        out.push(bytes[i]);
        i += 1;
    }
    proof {
        assert(bytes@.subrange(0, i as int) =~= bytes@);
    }
}

/// One direction of a substream held in memory. Bytes written to it wait, in
/// order, until they are read; a reader that finds nothing waiting is at the
/// end of the input.
pub struct ByteStream {
    waiting: Vec<u8>,
    shut: bool,
}

impl ByteStream {
    /// The bytes that were written and not yet read, oldest first.
    pub closed spec fn pending(&self) -> Seq<u8> {
        self.waiting@
    }

    /// Whether the stream was shut for writing.
    pub closed spec fn is_shut(&self) -> bool {
        self.shut
    }

    /// An open stream with nothing waiting.
    pub fn new() -> (stream: Self)
        ensures
            stream.pending() == Seq::<u8>::empty(),
            !stream.is_shut(),
    {
        ByteStream { waiting: Vec::new(), shut: false }
    }

    /// An open stream on which `bytes` wait to be read.
    pub fn from_bytes(bytes: Vec<u8>) -> (stream: Self)
        ensures
            stream.pending() == bytes@,
            !stream.is_shut(),
    {
        ByteStream { waiting: bytes, shut: false }
    }

    /// Shuts the stream for writing. What waits can still be read.
    pub fn shutdown(&mut self)
        ensures
            final(self).pending() == old(self).pending(),
            final(self).is_shut(),
    {
        self.shut = true;
    }

    /// Whether the stream was shut for writing.
    pub fn shut(&self) -> (shut: bool)
        ensures
            shut == self.is_shut(),
    {
        self.shut
    }

    /// Writes all of `bytes`, or nothing where the stream is shut.
    pub fn write_all(&mut self, bytes: &[u8]) -> (written: Result<(), StreamError>)
        ensures
            final(self).is_shut() == old(self).is_shut(),
            old(self).is_shut() ==> written == Err::<(), StreamError>(StreamError::Transport)
                && final(self).pending() == old(self).pending(),
            !old(self).is_shut() ==> written == Ok::<(), StreamError>(()) && final(self).pending()
                == old(self).pending() + bytes@,
    {
        if self.shut {
            return Err(StreamError::Transport);
        }
        append_bytes(&mut self.waiting, bytes);
        Ok(())
    }

    /// The bytes that wait to be read, without reading them.
    pub fn unread(&self) -> (bytes: &[u8])
        ensures
            bytes@ == self.pending(),
    {
        self.waiting.as_slice()
    }

    /// Reads `count` bytes and drops them.
    pub fn consume(&mut self, count: usize)
        requires
            count <= old(self).pending().len(),
        ensures
            final(self).pending() == old(self).pending().skip(count as int),
            final(self).is_shut() == old(self).is_shut(),
    {
        let mut rest: Vec<u8> = Vec::new();
        append_bytes(&mut rest, slice_subrange(self.waiting.as_slice(), count, self.waiting.len()));
        proof {
            assert(rest@ =~= self.waiting@.skip(count as int));
        }
        self.waiting = rest;
    }

    /// Reads everything that waits and drops it.
    pub fn discard(&mut self)
        ensures
            final(self).pending() == Seq::<u8>::empty(),
            final(self).is_shut() == old(self).is_shut(),
    {
        self.waiting = Vec::new();
    }
}

} // verus!
