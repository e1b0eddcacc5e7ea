//! A permissioned BFT blockchain consensus core: a fixed validator set
//! agrees on an ordered chain of blocks that apply transactions to a
//! replicated world state of balances, nonces, and contract code. Agreement
//! needs a quorum strictly above two thirds of the voting power.

pub mod block;
pub mod codec;
pub mod consensus;
pub mod counter;
pub mod crypto;
pub mod decimal;
pub mod errors;
pub mod messages;
pub mod order;
pub mod state;
pub mod validator;

pub use block::{Block, BlockHeader, Transaction};
pub use consensus::{BFTConsensus, BFTPhase, BlockVotes};
pub use counter::AseCounter;
pub use crypto::Ed25519Verifier;
pub use errors::ConsensusError;
pub use messages::{ConsensusMessage, Message};
pub use state::{Account, State, TransactionReceipt, TransactionStatus};
pub use validator::{Validator, ValidatorSet};

use vstd::prelude::*;

use crate::block::{block_structure_error, block_structure_ok};
use crate::crypto::spec_header_hash;
use crate::crypto::SigFailure;
use crate::state::{apply_txs, apply_txs_fit, first_validate_error, FinStep};
use crate::validator::{distinct_addresses, total_power};

verus! {

/// A consensus node: the engine, the writable world state, the validator
/// set, and a signature verifier.
#[derive(Debug)]
pub struct OsoConsensusNode {
    /// The BFT engine.
    pub consensus: BFTConsensus,
    /// The single writable state instance.
    pub state: State,
    /// The active validator set.
    pub validator_set: ValidatorSet,
    /// Verifier used for incoming blocks' signatures.
    pub crypto: Ed25519Verifier,
}

impl OsoConsensusNode {
    /// What construction guarantees and every method preserves.
    pub open spec fn wf(self) -> bool {
        self.consensus.wf() && self.state.wf() && self.validator_set.wf() && self.crypto.wf()
    }

    /// Builds a node over a fresh state; fails exactly as validator-set
    /// construction does.
    pub fn new(node_id: String, validators: Vec<Validator>, threshold: u64) -> (r: Result<
        OsoConsensusNode,
        ConsensusError,
    >)
        requires
            total_power(validators@) <= u64::MAX,
        ensures
            r is Ok <==> validators@.len() > 0 && distinct_addresses(validators@) && 3 * threshold
                > 2 * total_power(validators@),
            validators@.len() == 0 ==> (r matches Err(e) && e == ConsensusError::EmptyValidatorSet),
            validators@.len() > 0 && !distinct_addresses(validators@) ==> (r matches Err(e) && e
                == ConsensusError::DuplicateValidator),
            validators@.len() > 0 && distinct_addresses(validators@) && 3 * threshold <= 2
                * total_power(validators@) ==> (r matches Err(e) && e
                == ConsensusError::InvalidThreshold),
            r matches Ok(n) ==> {
                &&& n.wf()
                &&& n.validator_set.spec_validators() == validators@
                &&& n.validator_set.spec_threshold() == threshold
                &&& n.consensus.node_id == node_id
                &&& n.consensus.round == 0
                &&& n.consensus.phase == BFTPhase::NewRound
                &&& n.consensus.validator_set.spec_validators() == validators@
                &&& n.consensus.validator_set.spec_threshold() == threshold
                &&& n.state@.accounts == Map::<Seq<char>, state::AccountM>::empty()
                &&& n.state.block_height == 0
                &&& n.state.root_hash@ == Seq::new(32, |i: int| 0u8)
                &&& n.state@.history == Map::<u64, Seq<u8>>::empty()
                &&& n.state.receipts@.len() == 0
                &&& n.consensus.votes.prevote_set() == Set::<Seq<char>>::empty()
                &&& n.consensus.votes.precommit_set() == Set::<Seq<char>>::empty()
                &&& n.consensus.votes.block_hash is None
            },
    {
        let validator_set = match ValidatorSet::new(validators, threshold) {
            Ok(vs) => vs,
            Err(e) => {
                return Err(e);
            },
        };
        let consensus = BFTConsensus::new(node_id, validator_set.duplicate());
        let state = State::new();
        let crypto = Ed25519Verifier::new();
        Ok(OsoConsensusNode { consensus, state, validator_set, crypto })
    }

    /// Proposes a block over the node's state; the state is read, never
    /// changed.
    pub fn propose_block(&mut self, transactions: Vec<Transaction>) -> (r: Result<
        Block,
        ConsensusError,
    >)
        requires
            old(self).wf(),
            old(self).state.block_height < u64::MAX,
        ensures
            *final(self) == *old(self),
            r is Ok <==> old(self).consensus.is_proposer_spec() && first_validate_error(
                old(self).state@,
                transactions@,
            ) is None,
            !old(self).consensus.is_proposer_spec() ==> (r matches Err(e) && e matches
                ConsensusError::Internal(m) && m@ == "only proposer can create blocks"@),
            old(self).consensus.is_proposer_spec() ==> (match first_validate_error(
                old(self).state@,
                transactions@,
            ) {
                Some(msg) => r matches Err(e) && e matches ConsensusError::InvalidStateTransition(
                    m,
                ) && m@ == msg,
                None => r matches Ok(b) && {
                    &&& b.transactions == transactions
                    &&& b.header.block_num == old(self).state.block_height + 1
                    &&& b.header.parent_hash@ == consensus::spec_parent_hash(old(self).state@)
                    &&& b.header.state_root == old(self).state.root_hash
                    &&& b.header.merkle_root@ == crypto::tx_chain_hash(transactions@)
                    &&& b.header.validator_set_hash == consensus::vs_digest(
                        old(self).consensus.validator_set,
                    )
                    &&& b.header.signatures@.len() == 0
                },
            }),
    {
        self.consensus.propose_block(&mut self.state, transactions)
    }

    /// Validates an incoming block: its structure, its signatures against
    /// this node's validator set and key cache, and each transaction against
    /// the current state; reports the first failure.
    pub fn validate_block(&self, block: &Block) -> (r: Result<(), ConsensusError>)
        requires
            self.wf(),
        ensures
            ({
                let sigs = block.header.signatures@;
                let msg = spec_header_hash(block.header);
                let t = self.validator_set.spec_threshold();
                &&& (r is Ok <==> block_structure_ok(*block) && sigs.len() >= t
                    && self.crypto.first_sig_failure(self.validator_set, msg, sigs) is None
                    && first_validate_error(self.state@, block.transactions@) is None)
                &&& (!block_structure_ok(*block) ==> (r matches Err(e) && e matches
                    ConsensusError::InvalidBlockStructure(m) && block_structure_error(*block)
                    == Some(m@)))
                &&& (block_structure_ok(*block) && sigs.len() < t ==> r == Err::<
                    (),
                    ConsensusError,
                >(ConsensusError::InsufficientSignatures {
                    required: t,
                    actual: sigs.len() as u64,
                }))
                &&& (block_structure_ok(*block) && sigs.len() >= t ==> match self
                    .crypto.first_sig_failure(self.validator_set, msg, sigs) {
                    Some(SigFailure::NotInSet(a)) => r matches Err(e) && e matches
                        ConsensusError::ValidatorNotInSet(s) && s@ == a,
                    Some(SigFailure::UnknownKey(a)) => r matches Err(e) && e matches
                        ConsensusError::InvalidValidator(s) && s@ == a,
                    Some(SigFailure::Malformed(_)) => r matches Err(e) && e matches
                        ConsensusError::InvalidSignature(m) && m@ == "malformed signature"@,
                    Some(SigFailure::BadSignature(_)) => r matches Err(e) && e matches
                        ConsensusError::InvalidSignature(m) && m@
                            == "signature verification failed"@,
                    None => match first_validate_error(self.state@, block.transactions@) {
                        Some(vmsg) => r matches Err(e) && e matches
                            ConsensusError::InvalidStateTransition(m) && m@ == vmsg,
                        None => r is Ok,
                    },
                })
            }),
    {
        match block.verify_structure() {
            Ok(()) => (),
            Err(e) => {
                return Err(e);
            },
        }
        match self.crypto.verify_block_signatures(block, &self.validator_set) {
            Ok(()) => (),
            Err(e) => {
                return Err(e);
            },
        }
        self.consensus.validate_state_transitions(&self.state, block)
    }

    /// Finalizes a block against the node's state: applies every transaction
    /// atomically, then commits, advancing the height.
    pub fn finalize_block(&mut self, block: Block) -> (r: Result<(), ConsensusError>)
        requires
            old(self).wf(),
            apply_txs_fit(old(self).state@.accounts, old(self).state@.height, block.transactions@),
            apply_txs(old(self).state@.accounts, old(self).state@.height, block.transactions@)
                is Applied ==> old(self).state.block_height < u64::MAX,
        ensures
            final(self).wf(),
            final(self).consensus == old(self).consensus,
            final(self).validator_set == old(self).validator_set,
            final(self).crypto == old(self).crypto,
            match apply_txs(
                old(self).state@.accounts,
                old(self).state@.height,
                block.transactions@,
            ) {
                FinStep::Failed(msg) => r matches Err(e) && e matches
                    ConsensusError::InvalidStateTransition(m) && m@ == msg
                    && final(self).state == old(self).state,
                FinStep::Applied(m2) => r is Ok && final(self).state@.accounts == m2
                    && final(self).state.block_height == old(self).state.block_height + 1
                    && final(self).state@.history == old(self).state@.history.insert(
                    (old(self).state@.height + 1) as u64,
                    spec_header_hash(block.header),
                ) && final(self).state.root_hash@ == crypto::sha256_of(
                    state::accounts_encoding(final(self).state.accounts_seq()),
                ) && final(self).state.receipts == old(self).state.receipts,
            },
    {
        self.consensus.finalize_block(&mut self.state, block)
    }

    /// The current state root.
    pub fn state_root(&self) -> (r: [u8; 32])
        ensures
            r == self.state.root_hash,
    {
        self.state.root_hash()
    }

    /// The current block height.
    pub fn block_height(&self) -> (r: u64)
        ensures
            r == self.state.block_height,
    {
        self.state.block_height()
    }
}

} // verus!
