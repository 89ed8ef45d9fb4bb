//! The binary form of a block query.
//!
//! The empty query (height 0, forward, all counts zero) is the empty payload.
//! Every other query is a tag byte (0 for a hash, 1 for a height), the 32
//! bytes of the hash or the height in 8 little-endian bytes, one byte for the
//! direction, and `limit`, `skip` and `step` in 8 little-endian bytes each.

use vstd::prelude::*;
use vstd::bytes::{
    lemma_auto_spec_u64_to_from_le_bytes, spec_u64_to_le_bytes, u64_from_le_bytes,
    u64_to_le_bytes,
};
use vstd::slice::slice_subrange;
use crate::messages::Message;
use crate::stream::append_bytes;
use crate::{BlockID, BlockQuery, Direction};

verus! {

/// The query that the empty payload stands for.
pub open spec fn empty_query() -> BlockQuery {
    BlockQuery { start: BlockID::Number(0), direction: Direction::Forward, limit: 0, skip: 0, step: 0 }
}

/// The tag byte and the bytes of a start position.
pub open spec fn start_wire(start: BlockID) -> Seq<u8> {
    match start {
        BlockID::Hash(hash) => seq![0u8] + hash@,
        BlockID::Number(number) => seq![1u8] + spec_u64_to_le_bytes(number),
    }
}

/// The byte that stands for a direction.
pub open spec fn direction_wire(direction: Direction) -> u8 {
    match direction {
        Direction::Forward => 0,
        Direction::Backward => 1,
    }
}

/// The five fields of a query, laid out in full.
pub open spec fn full_wire(query: BlockQuery) -> Seq<u8> {
    start_wire(query.start) + seq![direction_wire(query.direction)] + spec_u64_to_le_bytes(
        query.limit,
    ) + spec_u64_to_le_bytes(query.skip) + spec_u64_to_le_bytes(query.step)
}

/// The binary form of a query.
pub open spec fn query_wire(query: BlockQuery) -> Seq<u8> {
    if query == empty_query() {
        Seq::empty()
    } else {
        full_wire(query)
    }
}

/// The query whose binary form `bytes` are, if there is one.
pub open spec fn query_parse(bytes: Seq<u8>) -> Option<BlockQuery> {
    if exists|query: BlockQuery| query_wire(query) == bytes {
        Some(choose|query: BlockQuery| query_wire(query) == bytes)
    } else {
        None
    }
}

/// Where each field lies in the full layout.
pub proof fn lemma_full_wire_shape(query: BlockQuery)
    ensures
        ({
            let w = full_wire(query);
            let body = start_wire(query.start).len() as int;
            &&& w.len() == body + 25
            &&& w[0] == start_wire(query.start)[0]
            &&& w.subrange(0, body) == start_wire(query.start)
            &&& w[body] == direction_wire(query.direction)
            &&& w.subrange(body + 1, body + 9) == spec_u64_to_le_bytes(query.limit)
            &&& w.subrange(body + 9, body + 17) == spec_u64_to_le_bytes(query.skip)
            &&& w.subrange(body + 17, body + 25) == spec_u64_to_le_bytes(query.step)
            &&& match query.start {
                BlockID::Hash(hash) => body == 33 && w[0] == 0 && w.subrange(1, 33) == hash@,
                BlockID::Number(number) => body == 9 && w[0] == 1 && w.subrange(1, 9)
                    == spec_u64_to_le_bytes(number),
            }
        }),
{
    lemma_auto_spec_u64_to_from_le_bytes();
    let w = full_wire(query);
    let s = start_wire(query.start);
    let body = s.len() as int;
    assert(w.subrange(0, body) =~= s);
    assert(w.subrange(body + 1, body + 9) =~= spec_u64_to_le_bytes(query.limit));
    assert(w.subrange(body + 9, body + 17) =~= spec_u64_to_le_bytes(query.skip));
    assert(w.subrange(body + 17, body + 25) =~= spec_u64_to_le_bytes(query.step));
    match query.start {
        BlockID::Hash(hash) => {
            assert(hash@.len() == 32);
            assert(w.subrange(1, 33) =~= hash@);
        },
        BlockID::Number(number) => {
            assert(w.subrange(1, 9) =~= spec_u64_to_le_bytes(number));
        },
    }
}

/// Two queries with the same full layout are the same query.
pub proof fn lemma_full_wire_injective(a: BlockQuery, b: BlockQuery)
    requires
        full_wire(a) == full_wire(b),
    ensures
        a == b,
{
    lemma_auto_spec_u64_to_from_le_bytes();
    lemma_full_wire_shape(a);
    lemma_full_wire_shape(b);
    match (a.start, b.start) {
        (BlockID::Hash(x), BlockID::Hash(y)) => {
            assert(x@ == y@);
            assert(x =~= y);
        },
        (BlockID::Number(x), BlockID::Number(y)) => {},
        _ => {},
    }
    assert(a.start == b.start);
    assert(a.direction == b.direction);
}

/// Two queries with the same binary form are the same query.
pub proof fn lemma_query_wire_injective(a: BlockQuery, b: BlockQuery)
    requires
        query_wire(a) == query_wire(b),
    ensures
        a == b,
{
    lemma_full_wire_shape(a);
    lemma_full_wire_shape(b);
    if a != empty_query() && b != empty_query() {
        lemma_full_wire_injective(a, b);
    }
}

/// A query's binary form parses back to the query.
pub proof fn lemma_query_round_trip(query: BlockQuery)
    ensures
        query_parse(query_wire(query)) == Some(query),
{
    let found = choose|other: BlockQuery| query_wire(other) == query_wire(query);
    lemma_query_wire_injective(found, query);
}

/// Only the empty payload and the two full layouts parse, and what parses
/// is the binary form of the query it parses to.
pub proof fn lemma_parse_shape(bytes: Seq<u8>)
    requires
        query_parse(bytes) is Some,
    ensures
        query_wire(query_parse(bytes)->Some_0) == bytes,
        bytes.len() == 0 || (bytes.len() == 58 && bytes[0] == 0 && bytes[33] <= 1) || (bytes.len()
            == 34 && bytes[0] == 1 && bytes[9] <= 1),
{
    lemma_full_wire_shape(query_parse(bytes)->Some_0);
}

/// Whether `query` is the empty query.
pub fn is_empty_query(query: &BlockQuery) -> (empty: bool)
    ensures
        empty == (*query == empty_query()),
{
    let zero_start = match query.start {
        BlockID::Number(number) => number == 0,
        BlockID::Hash(_) => false,
    };
    let forward = match query.direction {
        Direction::Forward => true,
        Direction::Backward => false,
    };
    zero_start && forward && query.limit == 0 && query.skip == 0 && query.step == 0
}

/// Reads the 32 bytes of a hash that start at `bytes[1]`.
fn hash_at_one(bytes: &[u8]) -> (hash: [u8; 32])
    requires
        bytes@.len() >= 33,
    ensures
        hash@ == bytes@.subrange(1, 33),
{
    let mut hash: [u8; 32] = [0u8; 32];
    let mut i: usize = 0;
    while i < 32
        invariant
            i <= 32,
            bytes@.len() >= 33,
            forall|j: int| 0 <= j < i ==> hash@[j] == bytes@[1 + j],
        decreases 32 - i,
    {
        hash[i] = bytes[1 + i];
        i += 1;
    }
    proof {
        assert(hash@ =~= bytes@.subrange(1, 33));
    }
    hash
}

impl Message for BlockQuery {
    open spec fn wire(&self) -> Seq<u8> {
        query_wire(*self)
    }

    open spec fn parse(bytes: Seq<u8>) -> Option<Self> {
        query_parse(bytes)
    }

    open spec fn empty() -> Self {
        empty_query()
    }

    fn encode(&self) -> (bytes: Vec<u8>) {
        let mut out: Vec<u8> = Vec::new();
        if is_empty_query(self) {
            return out;
        }
        match self.start {
            BlockID::Hash(hash) => {
                out.push(0u8);
                append_bytes(&mut out, hash.as_slice());
            },
            BlockID::Number(number) => {
                out.push(1u8);
                append_bytes(&mut out, u64_to_le_bytes(number).as_slice());
            },
        }
        proof {
            assert(out@ =~= start_wire(self.start));
        }
        let direction: u8 = match self.direction {
            Direction::Forward => 0,
            Direction::Backward => 1,
        };
        out.push(direction);
        append_bytes(&mut out, u64_to_le_bytes(self.limit).as_slice());
        append_bytes(&mut out, u64_to_le_bytes(self.skip).as_slice());
        append_bytes(&mut out, u64_to_le_bytes(self.step).as_slice());
        proof {
            assert(out@ =~= full_wire(*self));
        }
        out
    }

    fn decode(bytes: &[u8]) -> (message: Option<Self>) {
        if bytes.len() == 0 {
            proof {
                assert(bytes@ =~= query_wire(empty_query()));
                lemma_query_round_trip(empty_query());
            }
            return Some(Self::default_instance());
        }
        let tag: u8 = bytes[0];
        let hashed: bool = tag == 0 && bytes.len() == 58;
        let numbered: bool = tag == 1 && bytes.len() == 34;
        if !hashed && !numbered {
            proof {
                assert forall|query: BlockQuery| query_wire(query) != bytes@ by {
                    lemma_full_wire_shape(query);
                }
            }
            return None;
        }
        let body: usize = if hashed {
            33
        } else {
            9
        };
        let direction = if bytes[body] == 0 {
            Direction::Forward
        } else if bytes[body] == 1 {
            Direction::Backward
        } else {
            proof {
                assert forall|query: BlockQuery| query_wire(query) != bytes@ by {
                    lemma_full_wire_shape(query);
                }
            }
            return None;
        };
        let start = if hashed {
            BlockID::Hash(hash_at_one(bytes))
        } else {
            BlockID::Number(u64_from_le_bytes(slice_subrange(bytes, 1, 9)))
        };
        let limit: u64 = u64_from_le_bytes(slice_subrange(bytes, body + 1, body + 9));
        let skip: u64 = u64_from_le_bytes(slice_subrange(bytes, body + 9, body + 17));
        let step: u64 = u64_from_le_bytes(slice_subrange(bytes, body + 17, body + 25));
        let query = BlockQuery { start, direction, limit, skip, step };
        proof {
            lemma_auto_spec_u64_to_from_le_bytes();
            assert(spec_u64_to_le_bytes(limit) == bytes@.subrange(body + 1, body + 9));
            assert(spec_u64_to_le_bytes(skip) == bytes@.subrange(body + 9, body + 17));
            assert(spec_u64_to_le_bytes(step) == bytes@.subrange(body + 17, body + 25));
            assert(start_wire(start) =~= bytes@.subrange(0, body as int));
            assert(full_wire(query) =~= bytes@);
        }
        if is_empty_query(&query) {
            proof {
                assert forall|other: BlockQuery| query_wire(other) != bytes@ by {
                    lemma_full_wire_shape(other);
                    if query_wire(other) == bytes@ {
                        lemma_full_wire_injective(other, query);
                    }
                }
            }
            return None;
        }
        proof {
            lemma_query_round_trip(query);
        }
        Some(query)
    }

    fn default_instance() -> (message: Self) {
        BlockQuery {
            start: BlockID::Number(0),
            direction: Direction::Forward,
            limit: 0,
            skip: 0,
            step: 0,
        }
    }

    proof fn lemma_wire_fits(&self) {
        lemma_full_wire_shape(*self);
    }

    proof fn lemma_parse_wire(&self) {
        lemma_query_round_trip(*self);
    }

    proof fn lemma_parse_nothing() {
        lemma_query_round_trip(empty_query());
    }
}

} // verus!
