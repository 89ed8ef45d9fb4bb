//! The two substream upgrades of a streamed-data exchange. Each runs once on
//! a substream that was matched to its protocol name: the inbound side reads
//! one request, the outbound side writes one, and the stream goes to the
//! caller only where that succeeded.

use std::marker::PhantomData;
use libp2p::swarm::StreamProtocol;
use vstd::prelude::*;
use crate::messages::{
    frame, lemma_round_trip, read_message, read_outcome, unread_after, write_message, Message,
};
use crate::stream::{ByteStream, StreamError};

verus! {

/// libp2p's name of a stream protocol. The upgrades carry it for the
/// negotiation and never look inside.
#[verifier::external_type_specification]
#[verifier::external_body]
pub struct ExStreamProtocol(libp2p::swarm::StreamProtocol);

/// `Clone::clone` of libp2p's `StreamProtocol`, which the type derives: the
/// copy is the same name as the value it was made from.
#[verifier::external_body]
fn clone_name(name: &StreamProtocol) -> (copy: StreamProtocol)
    ensures
        copy == *name,
{
    name.clone()
}

/// What an inbound upgrade makes of one read: a request is owed, so a clean
/// end of the stream is an unexpected end of input.
pub open spec fn request_outcome<Query>(read: Result<Option<Query>, StreamError>) -> Result<
    Query,
    StreamError,
> {
    match read {
        Ok(Some(request)) => Ok(request),
        Ok(None) => Err(StreamError::UnexpectedEof),
        Err(error) => Err(error),
    }
}

/// Turns what one read gave into the request that the inbound side needs.
pub fn require_request<Query>(read: Result<Option<Query>, StreamError>) -> (request: Result<
    Query,
    StreamError,
>)
    ensures
        request == request_outcome(read),
        (read == Ok::<Option<Query>, StreamError>(None)) ==> request == Err::<Query, StreamError>(
            StreamError::UnexpectedEof,
        ),
{
    match read {
        Ok(Some(request)) => Ok(request),
        Ok(None) => Err(StreamError::UnexpectedEof),
        Err(error) => Err(error),
    }
}

/// Substream upgrade for sending data on blocks: the side that receives a
/// request and answers it with a stream of data.
pub struct InboundProtocol<Query: Message> {
    phantom: PhantomData<Query>,
    protocol_name: StreamProtocol,
}

impl<Query: Message> InboundProtocol<Query> {
    /// The name under which the protocol is negotiated.
    pub closed spec fn name(&self) -> StreamProtocol {
        self.protocol_name
    }

    /// An upgrade that is offered under `protocol_name`.
    pub fn new(protocol_name: StreamProtocol) -> (protocol: Self)
        ensures
            protocol.name() == protocol_name,
    {
        Self { protocol_name, phantom: PhantomData }
    }

    /// The names offered for negotiation: the protocol's one name.
    pub fn protocol_info(&self) -> (info: Vec<StreamProtocol>)
        ensures
            info@ == seq![self.name()],
    {
        let mut info: Vec<StreamProtocol> = Vec::new();
        info.push(clone_name(&self.protocol_name));
        proof {
            assert(info@ =~= seq![self.name()]);
        }
        info
    }

    /// Reads exactly one request from `stream` and hands it out together
    /// with the stream, on which whatever followed the request still waits.
    /// Nothing is written. Without a whole, valid request the upgrade fails
    /// and the stream is gone.
    pub fn upgrade_inbound(self, stream: ByteStream) -> (upgraded: Result<
        (Query, ByteStream),
        StreamError,
    >)
        ensures
            match request_outcome(read_outcome::<Query>(stream.pending())) {
                Ok(request) => match upgraded {
                    Ok((got, ready)) => got == request && ready.pending() == unread_after::<Query>(
                        stream.pending(),
                    ) && ready.is_shut() == stream.is_shut(),
                    Err(_) => false,
                },
                Err(error) => upgraded == Err::<(Query, ByteStream), StreamError>(error),
            },
            stream.pending().len() == 0 ==> upgraded == Err::<(Query, ByteStream), StreamError>(
                StreamError::UnexpectedEof,
            ),
    {
        let mut stream = stream;
        match require_request(read_message::<Query>(&mut stream)) {
            Ok(request) => Ok((request, stream)),
            Err(error) => Err(error),
        }
    }
}

/// Substream upgrade for requesting data on blocks: the side that sends a
/// request and receives a stream of data.
#[derive(Debug)]
pub struct OutboundProtocol<Query: Message> {
    pub query: Query,
    pub protocol_name: StreamProtocol,
}

impl<Query: Message> OutboundProtocol<Query> {
    /// The names offered for negotiation: the protocol's one name.
    pub fn protocol_info(&self) -> (info: Vec<StreamProtocol>)
        ensures
            info@ == seq![self.protocol_name],
    {
        let mut info: Vec<StreamProtocol> = Vec::new();
        info.push(clone_name(&self.protocol_name));
        proof {
            assert(info@ =~= seq![self.protocol_name]);
        }
        info
    }

    /// Writes the query to `stream` as exactly one record and hands the
    /// stream out. Nothing is read. On a stream that is shut for writing the
    /// upgrade fails and the stream is gone.
    pub fn upgrade_outbound(self, stream: ByteStream) -> (upgraded: Result<
        ByteStream,
        StreamError,
    >)
        ensures
            stream.is_shut() ==> upgraded == Err::<ByteStream, StreamError>(StreamError::Transport),
            !stream.is_shut() ==> match upgraded {
                Ok(ready) => ready.pending() == stream.pending() + frame(self.query.wire())
                    && !ready.is_shut(),
                Err(_) => false,
            },
    {
        let mut stream = stream;
        match write_message(self.query, &mut stream) {
            Ok(()) => Ok(stream),
            Err(error) => Err(error),
        }
    }
}

/// Outbound and inbound compose: the record that the outbound side writes
/// for a query on a stream with nothing waiting is read by the inbound side
/// as that query, and nothing is left waiting.
pub proof fn lemma_outbound_then_inbound<Query: Message>(query: Query)
    ensures
        request_outcome(read_outcome::<Query>(Seq::<u8>::empty() + frame(query.wire()))) == Ok::<
            Query,
            StreamError,
        >(query),
        unread_after::<Query>(Seq::<u8>::empty() + frame(query.wire())) == Seq::<u8>::empty(),
{
    lemma_round_trip(query, Seq::<u8>::empty());
    assert(Seq::<u8>::empty() + frame(query.wire()) =~= frame(query.wire()) + Seq::<u8>::empty());
}

} // verus!
