//! The message framing codec: one typed message per length-delimited record.
//!
//! A record is a length prefix followed by exactly that many bytes of payload.
//! A stream with nothing waiting where a record would begin has ended cleanly.

use vstd::prelude::*;
use vstd::slice::{slice_subrange, slice_to_vec};
use crate::stream::{append_bytes, ByteStream, StreamError};
use crate::varint::{
    decode_prefix, encode_varint, lemma_parse_encoding, lemma_prefix_stable,
    lemma_width_after_run, lemma_width_in_range, lemma_width_none, parse_prefix, prefix_width,
    varint_encoding, Prefix,
};

verus! {

/// What a payload type must offer to travel in a record: a binary form, the
/// way back from it, and an empty value that the empty payload stands for.
pub trait Message: Sized {
    /// The binary form of the message.
    spec fn wire(&self) -> Seq<u8>;

    /// The message that `bytes` are the binary form of, if any.
    spec fn parse(bytes: Seq<u8>) -> Option<Self>;

    /// The empty value.
    spec fn empty() -> Self;

    /// Serializes the message.
    fn encode(&self) -> (bytes: Vec<u8>)
        ensures
            bytes@ == self.wire(),
    ;

    /// Deserializes a message, or says that `bytes` hold none.
    fn decode(bytes: &[u8]) -> (message: Option<Self>)
        ensures
            message == Self::parse(bytes@),
    ;

    /// Makes the empty value.
    fn default_instance() -> (message: Self)
        ensures
            message == Self::empty(),
    ;

    /// The binary form of a message fits in memory.
    proof fn lemma_wire_fits(&self)
        ensures
            self.wire().len() <= usize::MAX,
    ;

    /// The binary form of a message parses back to that message.
    proof fn lemma_parse_wire(&self)
        ensures
            Self::parse(self.wire()) == Some(*self),
    ;

    /// The empty payload parses to the empty value.
    proof fn lemma_parse_nothing()
        ensures
            Self::parse(Seq::<u8>::empty()) == Some(Self::empty()),
    ;
}

/// The record that carries `payload`.
pub open spec fn frame(payload: Seq<u8>) -> Seq<u8> {
    varint_encoding(payload.len()) + payload
}

/// What stands at the front of the bytes that wait on a stream.
pub enum Record {
    /// Nothing waits: the stream ended cleanly.
    End,
    /// The stream ends inside the prefix or before the payload is complete.
    Truncated,
    /// The length prefix is no valid prefix.
    Malformed,
    /// A whole record with payload `bytes`, followed by `rest`.
    Payload { bytes: Seq<u8>, rest: Seq<u8> },
}

/// The reading of `pending` as a record followed by anything.
pub open spec fn next_record(pending: Seq<u8>) -> Record {
    if pending.len() == 0 {
        Record::End
    } else {
        match parse_prefix(pending) {
            Prefix::Incomplete => Record::Truncated,
            Prefix::Malformed => Record::Malformed,
            Prefix::Length { value, width } => {
                if pending.len() - width < value {
                    Record::Truncated
                } else {
                    Record::Payload {
                        bytes: pending.subrange(width as int, width + value),
                        rest: pending.skip(width + value),
                    }
                }
            },
        }
    }
}

/// What reading one message of type `M` from `pending` gives.
pub open spec fn read_outcome<M: Message>(pending: Seq<u8>) -> Result<Option<M>, StreamError> {
    match next_record(pending) {
        Record::End => Ok(None),
        Record::Truncated => Err(StreamError::UnexpectedEof),
        Record::Malformed => Err(StreamError::Decode),
        Record::Payload { bytes, rest } => match M::parse(bytes) {
            Some(message) => Ok(Some(message)),
            None => Err(StreamError::Decode),
        },
    }
}

/// What still waits after reading one message of type `M` from `pending`:
/// what follows the record where the read succeeded, nothing where it failed.
pub open spec fn unread_after<M: Message>(pending: Seq<u8>) -> Seq<u8> {
    match next_record(pending) {
        Record::Payload { bytes, rest } => if M::parse(bytes) is Some {
            rest
        } else {
            Seq::empty()
        },
        _ => Seq::empty(),
    }
}

/// How many bytes a reader that holds `buffered` must still read before it
/// can tell what the record is: none once the record is whole or its prefix
/// is seen to be malformed, one while the prefix is open, and else what the
/// payload lacks.
pub open spec fn missing_bytes(buffered: Seq<u8>) -> nat {
    if buffered.len() == 0 {
        1
    } else {
        match parse_prefix(buffered) {
            Prefix::Incomplete => 1,
            Prefix::Malformed => 0,
            Prefix::Length { value, width } => {
                if buffered.len() - width < value {
                    (value - (buffered.len() - width)) as nat
                } else {
                    0
                }
            },
        }
    }
}

/// Tells a reader that fills a buffer from a live stream how many bytes to
/// ask for next, so that it never reads past the end of the record.
pub fn bytes_needed(buffered: &[u8]) -> (needed: u64)
    ensures
        needed == missing_bytes(buffered@),
        needed == 0 <==> (next_record(buffered@) is Payload || next_record(buffered@) is Malformed),
{
    if buffered.len() == 0 {
        return 1;
    }
    proof {
        lemma_width_in_range(buffered@);
    }
    match decode_prefix(buffered) {
        Prefix::Incomplete => 1,
        Prefix::Malformed => 0,
        Prefix::Length { value, width } => {
            let available: u64 = (buffered.len() - width) as u64;
            if available < value {
                value - available
            } else {
                0
            }
        },
    }
}

/// A reader that never takes more bytes than are still needed never takes
/// a byte that follows the record: once the record is whole, it ends where
/// the buffer ends.
pub proof fn lemma_no_overread(buffered: Seq<u8>, more: Seq<u8>)
    requires
        0 < more.len() <= missing_bytes(buffered),
    ensures
        match next_record(buffered + more) {
            Record::Payload { bytes, rest } => rest == Seq::<u8>::empty(),
            _ => true,
        },
{
    let all = buffered + more;
    lemma_width_in_range(all);
    lemma_width_in_range(buffered);
    if buffered.len() == 0 {
        assert(all =~= more);
    } else if prefix_width(buffered) is None {
        lemma_width_none(buffered);
        assert forall|j: int| 0 <= j < buffered.len() implies all[j] >= 128 by {
            assert(all[j] == buffered[j]);
        }
        lemma_width_after_run(all, buffered.len());
        assert(all.skip(buffered.len() as int) =~= more);
        lemma_width_in_range(more);
    } else {
        lemma_prefix_stable(buffered, more);
    }
    match next_record(all) {
        Record::Payload { bytes, rest } => {
            assert(rest =~= Seq::<u8>::empty());
        },
        _ => {},
    }
}

/// Once the prefix is whole and payload is still owed, the bytes needed are
/// enough: with them the buffer holds the whole record and nothing else.
pub proof fn lemma_needed_suffices(buffered: Seq<u8>, more: Seq<u8>)
    requires
        parse_prefix(buffered) is Length,
        0 < more.len() == missing_bytes(buffered),
    ensures
        match next_record(buffered + more) {
            Record::Payload { bytes, rest } => rest == Seq::<u8>::empty(),
            _ => false,
        },
{
    lemma_width_in_range(buffered);
    lemma_prefix_stable(buffered, more);
    match next_record(buffered + more) {
        Record::Payload { bytes, rest } => {
            assert(rest =~= Seq::<u8>::empty());
        },
        _ => {},
    }
}

/// Writes `payload` as one record.
///
/// An in-memory stream shows each byte to the reader as soon as it is
/// written, so nothing is left to flush.
pub fn write_frame(payload: &[u8], stream: &mut ByteStream) -> (written: Result<(), StreamError>)
    ensures
        final(stream).is_shut() == old(stream).is_shut(),
        old(stream).is_shut() ==> written == Err::<(), StreamError>(StreamError::Transport)
            && final(stream).pending() == old(stream).pending(),
        !old(stream).is_shut() ==> written == Ok::<(), StreamError>(())
            && final(stream).pending() == old(stream).pending() + frame(payload@),
{
    let mut record: Vec<u8> = Vec::new();
    encode_varint(payload.len() as u64, &mut record);
    append_bytes(&mut record, payload);
    proof {
        assert(record@ =~= frame(payload@));
    }
    stream.write_all(record.as_slice())
}

/// Reads the next record and hands out its payload; `None` where the stream
/// ended cleanly. After a failure nothing is left on the stream.
pub fn read_frame(stream: &mut ByteStream) -> (read: Result<Option<Vec<u8>>, StreamError>)
    ensures
        final(stream).is_shut() == old(stream).is_shut(),
        old(stream).pending().len() == 0 ==> read == Ok::<Option<Vec<u8>>, StreamError>(None),
        match next_record(old(stream).pending()) {
            Record::End => read == Ok::<Option<Vec<u8>>, StreamError>(None)
                && final(stream).pending() == Seq::<u8>::empty(),
            Record::Truncated => read == Err::<Option<Vec<u8>>, StreamError>(
                StreamError::UnexpectedEof,
            ) && final(stream).pending() == Seq::<u8>::empty(),
            Record::Malformed => read == Err::<Option<Vec<u8>>, StreamError>(StreamError::Decode)
                && final(stream).pending() == Seq::<u8>::empty(),
            Record::Payload { bytes, rest } => (match read {
                Ok(Some(payload)) => payload@ == bytes,
                _ => false,
            }) && final(stream).pending() == rest,
        },
{
    let unread = stream.unread();
    if unread.len() == 0 {
        proof {
            assert(stream.pending() =~= Seq::<u8>::empty());
        }
        return Ok(None);
    }
    proof {
        lemma_width_in_range(unread@);
    }
    match decode_prefix(unread) {
        Prefix::Incomplete => {
            stream.discard();
            Err(StreamError::UnexpectedEof)
        },
        Prefix::Malformed => {
            stream.discard();
            Err(StreamError::Decode)
        },
        Prefix::Length { value, width } => {
            let available: usize = unread.len() - width;
            if (available as u64) < value {
                stream.discard();
                Err(StreamError::UnexpectedEof)
            } else {
                let end: usize = width + value as usize;
                let payload = slice_to_vec(slice_subrange(unread, width, end));
                stream.consume(end);
                Ok(Some(payload))
            }
        },
    }
}

/// Writes `message` as one record.
pub fn write_message<M: Message>(message: M, stream: &mut ByteStream) -> (written: Result<
    (),
    StreamError,
>)
    ensures
        final(stream).is_shut() == old(stream).is_shut(),
        old(stream).is_shut() ==> written == Err::<(), StreamError>(StreamError::Transport)
            && final(stream).pending() == old(stream).pending(),
        !old(stream).is_shut() ==> written == Ok::<(), StreamError>(())
            && final(stream).pending() == old(stream).pending() + frame(message.wire()),
{
    let payload = message.encode();
    write_frame(payload.as_slice(), stream)
}

/// Reads the next message; `None` where the stream ended cleanly before a
/// new record began.
pub fn read_message<M: Message>(stream: &mut ByteStream) -> (read: Result<Option<M>, StreamError>)
    ensures
        read == read_outcome::<M>(old(stream).pending()),
        old(stream).pending().len() == 0 ==> read == Ok::<Option<M>, StreamError>(None),
        final(stream).pending() == unread_after::<M>(old(stream).pending()),
        final(stream).is_shut() == old(stream).is_shut(),
{
    match read_frame(stream) {
        Ok(Some(payload)) => match M::decode(payload.as_slice()) {
            Some(message) => Ok(Some(message)),
            None => {
                stream.discard();
                Err(StreamError::Decode)
            },
        },
        Ok(None) => Ok(None),
        Err(error) => Err(error),
    }
}

/// A record followed by anything reads as its payload, and what follows is
/// left.
pub proof fn lemma_record_of_frame(payload: Seq<u8>, tail: Seq<u8>)
    requires
        payload.len() <= u64::MAX,
    ensures
        next_record(frame(payload) + tail) == (Record::Payload { bytes: payload, rest: tail }),
{
    let prefix = varint_encoding(payload.len());
    let pending = frame(payload) + tail;
    lemma_parse_encoding(payload.len() as u64, payload + tail);
    assert(pending =~= prefix + (payload + tail));
    let width = prefix.len() as int;
    assert(pending.subrange(width, width + payload.len()) =~= payload);
    assert(pending.skip(width + payload.len()) =~= tail);
}

/// Round trip: a message written as a record reads back as that message,
/// whatever follows the record, and what follows is left on the stream.
pub proof fn lemma_round_trip<M: Message>(message: M, tail: Seq<u8>)
    ensures
        read_outcome::<M>(frame(message.wire()) + tail) == Ok::<Option<M>, StreamError>(
            Some(message),
        ),
        unread_after::<M>(frame(message.wire()) + tail) == tail,
{
    message.lemma_wire_fits();
    lemma_record_of_frame(message.wire(), tail);
    message.lemma_parse_wire();
}

/// Clean end: with nothing waiting, a read reports "no message" and no error.
pub proof fn lemma_clean_end<M: Message>()
    ensures
        read_outcome::<M>(Seq::<u8>::empty()) == Ok::<Option<M>, StreamError>(None),
{
}

/// Truncation: a prefix that declares more payload than the stream holds
/// before it ends reads as an unexpected end of input, never as "no message".
pub proof fn lemma_truncated_record<M: Message>(declared: u64, sent: Seq<u8>)
    requires
        sent.len() < declared,
    ensures
        next_record(varint_encoding(declared as nat) + sent) == Record::Truncated,
        read_outcome::<M>(varint_encoding(declared as nat) + sent) == Err::<
            Option<M>,
            StreamError,
        >(StreamError::UnexpectedEof),
{
    lemma_parse_encoding(declared, sent);
}

/// Decode rejection: a whole record whose payload is no message of type `M`
/// reads as a decode error.
pub proof fn lemma_decode_rejection<M: Message>(payload: Seq<u8>, tail: Seq<u8>)
    requires
        payload.len() <= u64::MAX,
        M::parse(payload) is None,
    ensures
        read_outcome::<M>(frame(payload) + tail) == Err::<Option<M>, StreamError>(
            StreamError::Decode,
        ),
{
    lemma_record_of_frame(payload, tail);
}

/// A record of declared length zero is a message, the empty value, and not
/// the end of the stream.
pub proof fn lemma_empty_record<M: Message>(tail: Seq<u8>)
    ensures
        frame(Seq::<u8>::empty()) == seq![0u8],
        read_outcome::<M>(seq![0u8] + tail) == Ok::<Option<M>, StreamError>(Some(M::empty())),
        unread_after::<M>(seq![0u8] + tail) == tail,
{
    assert(frame(Seq::<u8>::empty()) =~= seq![0u8]);
    lemma_record_of_frame(Seq::<u8>::empty(), tail);
    M::lemma_parse_nothing();
}

} // verus!
