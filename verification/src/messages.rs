//! Messages exchanged between consensus nodes.

use vstd::prelude::*;

use crate::block::{Block, Transaction};

verus! {

/// Message envelope: who sent it, when, and the payload.
#[derive(Clone, Debug)]
pub struct Message {
    /// Sender node ID.
    pub sender: String,
    /// Message timestamp.
    pub timestamp: u64,
    /// Message payload.
    pub payload: ConsensusMessage,
}

impl Message {
    /// An envelope from its parts.
    pub fn new(sender: String, timestamp: u64, payload: ConsensusMessage) -> (m: Message)
        ensures
            m.sender == sender,
            m.timestamp == timestamp,
            m.payload == payload,
    {
        Message { sender, timestamp, payload }
    }
}

/// Consensus-related payloads.
#[derive(Clone, Debug)]
pub enum ConsensusMessage {
    /// Proposer announces a new block.
    Propose { round: u64, block: Block },
    /// Validator broadcasts a prevote; `None` is a nil-vote.
    Prevote { round: u64, block_hash: Option<[u8; 32]> },
    /// Validator broadcasts a precommit; `None` is a nil-vote.
    Precommit { round: u64, block_hash: Option<[u8; 32]> },
    /// Request a block by height.
    RequestBlock { block_num: u64 },
    /// Response to a block request.
    Block { block: Block },
    /// Request state sync from a height.
    RequestState { from_block: u64 },
    /// Response to state sync: transactions to apply.
    StateUpdate { block_num: u64, transactions: Vec<Transaction> },
    /// Keep-alive.
    Heartbeat { block_height: u64, round: u64 },
    /// Error report.
    Error { code: u32, message: String },
}

} // verus!
