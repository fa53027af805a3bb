//! A block-streaming wire protocol and a multi-chain common-ancestor
//! resolver.
//!
//! Blocks travel as fixed 56-byte frames: a little-endian block number,
//! a 32-byte parent hash, and a 16-byte opaque payload.  A `BlockStream`
//! turns a byte source into a lazy sequence of decoded blocks, and
//! `find_common_ancestor` rewinds several such streams in a synchronized
//! merge until every chain sits on one identical record.
//!
//! A small verified parking-lot model (spot inventories, display
//! boards, floors) lives in `parking`, apart from the protocol.

pub mod block;
pub mod codec;
pub mod parking;
pub mod resolver;
pub mod stream;
