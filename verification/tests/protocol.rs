use libp2p::swarm::StreamProtocol;
use papyrus_network::messages::{read_message, write_frame, write_message};
use papyrus_network::stream::{ByteStream, StreamError};
use papyrus_network::streamed_data::protocol::{
    require_request, InboundProtocol, OutboundProtocol,
};
use papyrus_network::{BlockID, BlockQuery, Direction};

const NAME: StreamProtocol = StreamProtocol::new("/get_blocks/1.0.0");

fn sample_query() -> BlockQuery {
    BlockQuery {
        start: BlockID::Number(100),
        direction: Direction::Forward,
        limit: 10,
        skip: 0,
        step: 1,
    }
}

fn other_query() -> BlockQuery {
    BlockQuery {
        start: BlockID::Hash([0x11; 32]),
        direction: Direction::Backward,
        limit: 5,
        skip: 2,
        step: 3,
    }
}

#[test]
fn inbound_offers_its_one_name() {
    let inbound = InboundProtocol::<BlockQuery>::new(NAME);
    assert_eq!(inbound.protocol_info(), vec![NAME]);
    let other = InboundProtocol::<BlockQuery>::new(StreamProtocol::new("/other"));
    assert_eq!(other.protocol_info(), vec![StreamProtocol::new("/other")]);
}

#[test]
fn outbound_offers_its_one_name() {
    let outbound = OutboundProtocol { query: sample_query(), protocol_name: NAME };
    assert_eq!(outbound.protocol_info(), vec![NAME]);
    assert_eq!(outbound.query, sample_query());
}

#[test]
fn inbound_requires_a_request() {
    let inbound = InboundProtocol::<BlockQuery>::new(NAME);
    let result = inbound.upgrade_inbound(ByteStream::new());
    assert_eq!(result.err(), Some(StreamError::UnexpectedEof));
}

#[test]
fn inbound_fails_on_a_truncated_request() {
    let inbound = InboundProtocol::<BlockQuery>::new(NAME);
    let result = inbound.upgrade_inbound(ByteStream::from_bytes(vec![34, 1, 100]));
    assert_eq!(result.err(), Some(StreamError::UnexpectedEof));
}

#[test]
fn inbound_fails_on_a_request_that_does_not_decode() {
    let mut stream = ByteStream::new();
    assert_eq!(write_frame(&[9, 9], &mut stream), Ok(()));
    let inbound = InboundProtocol::<BlockQuery>::new(NAME);
    assert_eq!(inbound.upgrade_inbound(stream).err(), Some(StreamError::Decode));
}

#[test]
fn outbound_then_inbound_compose() {
    let query = sample_query();
    let outbound = OutboundProtocol { query, protocol_name: NAME };
    let stream = outbound.upgrade_outbound(ByteStream::new()).unwrap();
    let inbound = InboundProtocol::<BlockQuery>::new(NAME);
    let (request, ready) = inbound.upgrade_inbound(stream).unwrap();
    assert_eq!(request, query);
    assert_eq!(
        request,
        BlockQuery {
            start: BlockID::Number(100),
            direction: Direction::Forward,
            limit: 10,
            skip: 0,
            step: 1,
        }
    );
    assert!(ready.unread().is_empty());
    assert!(!ready.shut());
}

#[test]
fn outbound_writes_exactly_one_record() {
    let outbound = OutboundProtocol { query: sample_query(), protocol_name: NAME };
    let mut stream = outbound.upgrade_outbound(ByteStream::from_bytes(vec![0])).unwrap();
    assert_eq!(stream.unread().len(), 1 + 1 + 34);
    assert_eq!(stream.unread()[0], 0);
    assert_eq!(stream.unread()[1], 34);
    assert_eq!(read_message::<BlockQuery>(&mut stream).unwrap().is_some(), true);
    assert_eq!(read_message::<BlockQuery>(&mut stream), Ok(Some(sample_query())));
    assert_eq!(read_message::<BlockQuery>(&mut stream), Ok(None));
}

#[test]
fn outbound_fails_on_a_shut_stream() {
    let mut stream = ByteStream::new();
    stream.shutdown();
    let outbound = OutboundProtocol { query: sample_query(), protocol_name: NAME };
    assert_eq!(outbound.upgrade_outbound(stream).err(), Some(StreamError::Transport));
}

#[test]
fn inbound_leaves_what_follows_the_request() {
    let mut stream = ByteStream::new();
    assert_eq!(write_message(sample_query(), &mut stream), Ok(()));
    assert_eq!(write_message(other_query(), &mut stream), Ok(()));
    let inbound = InboundProtocol::<BlockQuery>::new(NAME);
    let (request, mut ready) = inbound.upgrade_inbound(stream).unwrap();
    assert_eq!(request, sample_query());
    assert_eq!(ready.unread().len(), 1 + 58);
    assert_eq!(read_message::<BlockQuery>(&mut ready), Ok(Some(other_query())));
    assert_eq!(read_message::<BlockQuery>(&mut ready), Ok(None));
}

#[test]
fn inbound_accepts_an_empty_record_as_the_empty_request() {
    let inbound = InboundProtocol::<BlockQuery>::new(NAME);
    let (request, ready) = inbound.upgrade_inbound(ByteStream::from_bytes(vec![0])).unwrap();
    assert_eq!(request.start, BlockID::Number(0));
    assert_eq!(request.limit, 0);
    assert!(ready.unread().is_empty());
}

#[test]
fn require_request_turns_no_message_into_an_error() {
    assert_eq!(require_request(Ok(Some(7u8))), Ok(7u8));
    assert_eq!(require_request::<u8>(Ok(None)), Err(StreamError::UnexpectedEof));
    assert_eq!(require_request::<u8>(Err(StreamError::Decode)), Err(StreamError::Decode));
    assert_eq!(require_request::<u8>(Err(StreamError::Transport)), Err(StreamError::Transport));
}

#[test]
fn exchanges_on_distinct_streams_are_independent() {
    let first = OutboundProtocol { query: sample_query(), protocol_name: NAME };
    let second = OutboundProtocol { query: other_query(), protocol_name: NAME };
    let mut broken = ByteStream::new();
    broken.shutdown();
    let third = OutboundProtocol { query: sample_query(), protocol_name: NAME };
    let stream_a = first.upgrade_outbound(ByteStream::new()).unwrap();
    assert_eq!(third.upgrade_outbound(broken).err(), Some(StreamError::Transport));
    let stream_b = second.upgrade_outbound(ByteStream::new()).unwrap();
    let failed = InboundProtocol::<BlockQuery>::new(NAME).upgrade_inbound(ByteStream::new());
    assert_eq!(failed.err(), Some(StreamError::UnexpectedEof));
    let (request_b, ready_b) =
        InboundProtocol::<BlockQuery>::new(NAME).upgrade_inbound(stream_b).unwrap();
    let (request_a, ready_a) =
        InboundProtocol::<BlockQuery>::new(NAME).upgrade_inbound(stream_a).unwrap();
    assert_eq!(request_a, sample_query());
    assert_eq!(request_b, other_query());
    assert!(ready_a.unread().is_empty());
    assert!(ready_b.unread().is_empty());
}
