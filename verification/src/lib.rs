//! The wire layer of a peer-to-peer block exchange: a length-delimited
//! message codec, the two one-shot substream upgrades built on it, and the
//! block-range query that the canonical exchange carries.

pub mod messages;
pub mod stream;
pub mod streamed_data;
pub mod varint;
pub mod wire;

use vstd::prelude::*;

verus! {

/// The way a range of blocks is walked from its start.
#[derive(Debug, Clone, Copy, PartialEq, Eq, Structural)]
pub enum Direction {
    Forward,
    Backward,
}

/// A position in the chain, named by a block's hash or by its height.
#[derive(Debug, Clone, Copy, PartialEq, Eq)]
pub enum BlockID {
    /// The 32 bytes of a block hash, most significant first.
    Hash([u8; 32]),
    /// A block height.
    Number(u64),
}

/// A request for a range of blocks: from `start`, walking `direction`, up to
/// `limit` blocks, with `skip` and `step` as the peer's stride. The five
/// fields are carried as given; none is checked, defaulted or clamped.
#[derive(Debug, Clone, Copy, PartialEq, Eq)]
pub struct BlockQuery {
    pub start: BlockID,
    pub direction: Direction,
    pub limit: u64,
    pub skip: u64,
    pub step: u64,
}

} // verus!
