//! The parts of the chain that messages carry.

use vstd::prelude::*;

verus! {

/// The hash that names a block.
#[derive(Clone, Copy, Debug, PartialEq, Eq, Hash)]
pub struct BlockHash(pub [u8; 32]);

/// The hash that names a transaction.
#[derive(Clone, Copy, Debug, PartialEq, Eq, Hash)]
pub struct Txid(pub [u8; 32]);

/// The hash that names a peer state.
#[derive(Clone, Copy, Debug, PartialEq, Eq, Hash)]
pub struct PeerStateId(pub [u8; 32]);

/// The end of a chain: its last block, and the mainchain block that commits to it.
#[derive(Clone, Copy, Debug, PartialEq, Eq, Hash)]
pub struct Tip {
    pub block_hash: BlockHash,
    pub main_block_hash: BlockHash,
}

/// A peer state, in its encoded form.
#[derive(Clone, Debug, PartialEq, Eq, Hash)]
pub struct PeerState(pub Vec<u8>);

/// A transaction with its authorizations, in its encoded form.
#[derive(Clone, Debug, PartialEq, Eq, Hash)]
pub struct AuthorizedTransaction(pub Vec<u8>);

/// A block header, in its encoded form.
#[derive(Clone, Debug, PartialEq, Eq, Hash)]
pub struct Header(pub Vec<u8>);

/// A block, in its encoded form.
#[derive(Clone, Debug, PartialEq, Eq, Hash)]
pub struct Block(pub Vec<u8>);

} // verus!
