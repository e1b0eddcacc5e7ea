//! BFT consensus engine: the round/phase state machine, vote tallying,
//! proposer rotation, block proposal, validation, and finalization.

use vstd::prelude::*;

use crate::block::{Block, BlockHeader, Transaction};
use crate::codec::{encode_header, push_str_encoding, str_encoding};
use crate::crypto::{sha256, sha256_of, tx_chain_hash, Ed25519Verifier};
use crate::errors::{insufficient_balance_msg, ConsensusError};
use crate::state::{
    apply_tx, apply_txs, apply_txs_fit, contract_address, first_validate_error, validate_error,
    AccountM, FinStep, State, StateM,
};
use crate::validator::{Validator, ValidatorSet};

verus! {

/// Where in a round the local node stands.
#[derive(Clone, Copy, Debug, Eq, PartialEq, Structural)]
pub enum BFTPhase {
    /// Waiting for a proposal.
    NewRound,
    /// The proposer has broadcast a block.
    Propose,
    /// Validators are broadcasting prevotes.
    Prevote,
    /// Validators are broadcasting precommits.
    Precommit,
    /// The block is committed.
    Commit,
}

/// No two entries read as the same string.
pub open spec fn distinct_strings(v: Seq<String>) -> bool {
    forall|i: int, j: int| 0 <= i < j < v.len() ==> v[i]@ != v[j]@
}

/// A list of distinct strings has as many entries as its set of values.
proof fn lemma_distinct_count(v: Seq<String>)
    requires
        distinct_strings(v),
    ensures
        v.map_values(|s: String| s@).to_set().finite(),
        v.map_values(|s: String| s@).to_set().len() == v.len(),
{
    let m = v.map_values(|s: String| s@);
    assert(m.no_duplicates());
    m.unique_seq_to_set();
}

/// Appending one string adds exactly its value to the set of values.
proof fn lemma_push_to_set(v: Seq<String>, x: String)
    ensures
        v.push(x).map_values(|s: String| s@).to_set() == v.map_values(|s: String| s@).to_set()
            .insert(x@),
{
    let pre = v.map_values(|s: String| s@);
    let post = v.push(x).map_values(|s: String| s@);
    assert(post =~= pre.push(x@));
    assert forall|y: Seq<char>|
        post.to_set().contains(y) implies pre.to_set().insert(x@).contains(y) by {
        let k = choose|k: int| 0 <= k < post.len() && post[k] == y;
        if k < pre.len() {
            assert(pre[k] == y);
            assert(pre.contains(y));
        }
    }
    assert forall|y: Seq<char>|
        pre.to_set().insert(x@).contains(y) implies post.to_set().contains(y) by {
        if y == x@ {
            assert(post[post.len() - 1] == y);
            assert(post.contains(y));
        } else {
            let k = choose|k: int| 0 <= k < pre.len() && pre[k] == y;
            assert(post[k] == y);
            assert(post.contains(y));
        }
    }
    assert(post.to_set() =~= pre.to_set().insert(x@));
}

/// Votes accumulated for a block candidate: the candidate hash once known,
/// and one prevote and one precommit at most per validator.
#[derive(Clone, Debug)]
pub struct BlockVotes {
    /// Hash of the block being voted on.
    pub block_hash: Option<[u8; 32]>,
    /// Validators that prevoted, each at most once.
    pub prevotes: Vec<String>,
    /// Validators that precommitted, each at most once.
    pub precommits: Vec<String>,
}

impl BlockVotes {
    /// The set of validators that prevoted.
    pub open spec fn prevote_set(self) -> Set<Seq<char>> {
        self.prevotes@.map_values(|s: String| s@).to_set()
    }

    /// The set of validators that precommitted.
    pub open spec fn precommit_set(self) -> Set<Seq<char>> {
        self.precommits@.map_values(|s: String| s@).to_set()
    }

    /// One vote per validator per phase.
    pub open spec fn wf(self) -> bool {
        distinct_strings(self.prevotes@) && distinct_strings(self.precommits@)
    }

    /// An empty tally.
    pub fn new() -> (v: BlockVotes)
        ensures
            v.wf(),
            v.block_hash is None,
            v.prevote_set() == Set::<Seq<char>>::empty(),
            v.precommit_set() == Set::<Seq<char>>::empty(),
            v.prevotes@.len() == 0,
            v.precommits@.len() == 0,
    {
        let v = BlockVotes { block_hash: None, prevotes: Vec::new(), precommits: Vec::new() };
        proof {
            assert(v.prevote_set() =~= Set::<Seq<char>>::empty());
            assert(v.precommit_set() =~= Set::<Seq<char>>::empty());
        }
        v
    }

    /// Records a prevote; a second prevote from the same validator changes
    /// nothing.
    pub fn add_prevote(&mut self, validator: String)
        requires
            old(self).wf(),
        ensures
            final(self).wf(),
            final(self).prevote_set() == old(self).prevote_set().insert(validator@),
            final(self).precommits == old(self).precommits,
            final(self).block_hash == old(self).block_hash,
            old(self).prevote_set().contains(validator@) ==> *final(self) == *old(self),
    {
        let ghost votes = self.prevotes@;
        let key = validator.as_str().to_owned();
        let n = self.prevotes.len();
        let mut i: usize = 0;
        while i < n
            invariant
                n == votes.len(),
                i <= n,
                self.prevotes@ == votes,
                votes == old(self).prevotes@,
                key@ == validator@,
                old(self).wf(),
                *self == *old(self),
                forall|k: int| 0 <= k < i ==> #[trigger] votes[k]@ != validator@,
            decreases n - i,
        {
            if self.prevotes[i].eq(&key) {
                proof {
                    assert(old(self).prevotes@.map_values(|s: String| s@)[i as int] == validator@);
                    assert(old(self).prevotes@.map_values(|s: String| s@).contains(validator@));
                    assert(old(self).prevote_set().contains(validator@));
                    assert(old(self).prevote_set().insert(validator@) =~= old(
                        self,
                    ).prevote_set());
                }
                return ;
            }
            i = i + 1;
        }
        self.prevotes.push(validator);
        proof {
            lemma_push_to_set(old(self).prevotes@, validator);
        }
    }

    /// Records a precommit; a second precommit from the same validator
    /// changes nothing.
    pub fn add_precommit(&mut self, validator: String)
        requires
            old(self).wf(),
        ensures
            final(self).wf(),
            final(self).precommit_set() == old(self).precommit_set().insert(validator@),
            final(self).prevotes == old(self).prevotes,
            final(self).block_hash == old(self).block_hash,
            old(self).precommit_set().contains(validator@) ==> *final(self) == *old(self),
    {
        let ghost votes = self.precommits@;
        let key = validator.as_str().to_owned();
        let n = self.precommits.len();
        let mut i: usize = 0;
        while i < n
            invariant
                n == votes.len(),
                i <= n,
                self.precommits@ == votes,
                votes == old(self).precommits@,
                key@ == validator@,
                old(self).wf(),
                *self == *old(self),
                forall|k: int| 0 <= k < i ==> #[trigger] votes[k]@ != validator@,
            decreases n - i,
        {
            if self.precommits[i].eq(&key) {
                proof {
                    assert(old(self).precommits@.map_values(|s: String| s@)[i as int]
                        == validator@);
                    assert(old(self).precommits@.map_values(|s: String| s@).contains(validator@));
                    assert(old(self).precommit_set().contains(validator@));
                    assert(old(self).precommit_set().insert(validator@) =~= old(
                        self,
                    ).precommit_set());
                }
                return ;
            }
            i = i + 1;
        }
        self.precommits.push(validator);
        proof {
            lemma_push_to_set(old(self).precommits@, validator);
        }
    }

    /// The number of validators that prevoted.
    pub fn prevote_count(&self) -> (n: u64)
        requires
            self.wf(),
        ensures
            n == self.prevote_set().len(),
    {
        proof {
            lemma_distinct_count(self.prevotes@);
        }
        self.prevotes.len() as u64
    }

    /// The number of validators that precommitted.
    pub fn precommit_count(&self) -> (n: u64)
        requires
            self.wf(),
        ensures
            n == self.precommit_set().len(),
    {
        proof {
            lemma_distinct_count(self.precommits@);
        }
        self.precommits.len() as u64
    }

    /// Whether a polka is observed: at least a threshold of prevotes.
    pub fn has_polka(&self, threshold: u64) -> (r: bool)
        requires
            self.wf(),
        ensures
            r == (self.prevote_set().len() >= threshold),
    {
        self.prevote_count() >= threshold
    }

    /// Whether a commit quorum is observed: at least a threshold of
    /// precommits.
    pub fn has_commit(&self, threshold: u64) -> (r: bool)
        requires
            self.wf(),
        ensures
            r == (self.precommit_set().len() >= threshold),
    {
        self.precommit_count() >= threshold
    }

    /// Clears the tally for a new round.
    pub fn reset(&mut self)
        ensures
            final(self).wf(),
            final(self).block_hash is None,
            final(self).prevote_set() == Set::<Seq<char>>::empty(),
            final(self).precommit_set() == Set::<Seq<char>>::empty(),
    {
        self.block_hash = None;
        self.prevotes.clear();
        self.precommits.clear();
        proof {
            assert(final(self).prevote_set() =~= Set::<Seq<char>>::empty());
            assert(final(self).precommit_set() =~= Set::<Seq<char>>::empty());
        }
    }
}

impl Default for BlockVotes {
    /// An empty tally.
    fn default() -> (v: BlockVotes)
        ensures
            v.wf(),
            v.block_hash is None,
            v.prevote_set() == Set::<Seq<char>>::empty(),
            v.precommit_set() == Set::<Seq<char>>::empty(),
    {
        BlockVotes::new()
    }
}

/// Quorum monotonicity: a vote set only ever grows within a round (recording
/// a vote inserts into it, and nothing removes from it until the tally is
/// reset), so once it reaches the threshold, any later vote set in the same
/// round still reaches it.
pub proof fn lemma_quorum_monotonic(before: Set<Seq<char>>, after: Set<Seq<char>>, threshold: u64)
    requires
        before.finite(),
        after.finite(),
        before.subset_of(after),
        before.len() >= threshold,
    ensures
        after.len() >= threshold,
{
    vstd::set_lib::lemma_len_subset(before, after);
}

/// Polka monotonicity over tallies: once a tally observes a polka, every
/// tally of the same round — one whose prevote set extends it, as each
/// recorded vote only inserts — still observes it. Only the reset at a round
/// change clears the set.
pub proof fn lemma_polka_monotonic(v1: BlockVotes, v2: BlockVotes, threshold: u64)
    requires
        v1.wf(),
        v2.wf(),
        v1.prevote_set().subset_of(v2.prevote_set()),
        v1.prevote_set().len() >= threshold,
    ensures
        v2.prevote_set().len() >= threshold,
{
    lemma_distinct_count(v1.prevotes@);
    lemma_distinct_count(v2.prevotes@);
    lemma_quorum_monotonic(v1.prevote_set(), v2.prevote_set(), threshold);
}

/// The address of the proposer for a round: round-robin over the validators.
pub open spec fn proposer_at(vs: ValidatorSet, round: u64) -> Seq<char> {
    vs.spec_validators()[(round as int) % (vs.spec_validators().len() as int)].address@
}

/// The encodings of the validators' addresses, in set order.
pub open spec fn validators_addr_encoding(vals: Seq<Validator>) -> Seq<u8>
    decreases vals.len(),
{
    if vals.len() == 0 {
        Seq::empty()
    } else {
        validators_addr_encoding(vals.drop_last()) + str_encoding(vals.last().address@)
    }
}

/// A 64-bit value read from the first eight bytes, little-endian.
pub open spec fn u64_from_le_8(s: Seq<u8>) -> u64 {
    (s[0] + s[1] * 0x100 + s[2] * 0x1_0000 + s[3] * 0x100_0000 + s[4] * 0x1_0000_0000 + s[5]
        * 0x100_0000_0000 + s[6] * 0x1_0000_0000_0000 + s[7] * 0x100_0000_0000_0000) as u64
}

/// The digest of a validator set committed in each block header: the first
/// eight bytes of the SHA-256 over the validators' encoded addresses.
pub open spec fn vs_digest(vs: ValidatorSet) -> u64 {
    u64_from_le_8(sha256_of(validators_addr_encoding(vs.spec_validators())))
}

/// The parent hash a proposal carries: the recorded hash of the chain tip,
/// or zeros at genesis.
pub open spec fn spec_parent_hash(m: StateM) -> Seq<u8> {
    if m.height > 0 {
        m.history[m.height]
    } else {
        Seq::new(32, |i: int| 0u8)
    }
}

/// Relies on std::time::SystemTime: the clock reading at the call, in
/// milliseconds since the Unix epoch. Nothing is promised of the value.
#[verifier::external_body]
pub fn current_timestamp() -> u64 {
    std::time::SystemTime::now().duration_since(std::time::UNIX_EPOCH).unwrap_or_default()
        .as_millis() as u64
}

/// BFT consensus engine: two-round voting at a two-thirds threshold.
#[derive(Debug)]
pub struct BFTConsensus {
    /// This node's address.
    pub node_id: String,
    /// The validator set this engine works against.
    pub validator_set: ValidatorSet,
    /// Current round number.
    pub round: u64,
    /// Current phase within the round.
    pub phase: BFTPhase,
    /// Votes accumulated for the current candidate.
    pub votes: BlockVotes,
    /// Signature verifier with the validators' key cache.
    pub crypto: Ed25519Verifier,
}

impl BFTConsensus {
    /// What construction guarantees and every method preserves.
    pub open spec fn wf(self) -> bool {
        self.validator_set.wf() && self.votes.wf() && self.crypto.wf()
    }

    /// Whether this node proposes in the current round.
    pub open spec fn is_proposer_spec(self) -> bool {
        proposer_at(self.validator_set, self.round) == self.node_id@
    }

    /// An engine at round zero, phase `NewRound`, with no votes and an empty
    /// key cache.
    pub fn new(node_id: String, validator_set: ValidatorSet) -> (c: BFTConsensus)
        requires
            validator_set.wf(),
        ensures
            c.wf(),
            c.node_id == node_id,
            c.validator_set == validator_set,
            c.round == 0,
            c.phase == BFTPhase::NewRound,
            c.votes.prevote_set() == Set::<Seq<char>>::empty(),
            c.votes.precommit_set() == Set::<Seq<char>>::empty(),
            c.votes.block_hash is None,
    {
        BFTConsensus {
            node_id,
            validator_set,
            round: 0,
            phase: BFTPhase::NewRound,
            votes: BlockVotes::new(),
            crypto: Ed25519Verifier::new(),
        }
    }

    /// Whether this node is the proposer for the current round.
    fn is_proposer(&self) -> (r: bool)
        requires
            self.wf(),
        ensures
            r == self.is_proposer_spec(),
    {
        let n = self.validator_set.len();
        let idx = (self.round % (n as u64)) as usize;
        let vals = self.validator_set.validators();
        vals[idx].address.eq(&self.node_id)
    }

    /// The 64-bit digest of the validator set's addresses.
    fn hash_validator_set(validator_set: &ValidatorSet) -> (r: u64)
        ensures
            r == vs_digest(*validator_set),
    {
        let vals = validator_set.validators();
        let n = vals.len();
        let mut out: Vec<u8> = Vec::new();
        let mut i: usize = 0;
        while i < n
            invariant
                n == validator_set.spec_validators().len(),
                vals@ == validator_set.spec_validators(),
                i <= n,
                out@ == validators_addr_encoding(validator_set.spec_validators().subrange(
                    0,
                    i as int,
                )),
            decreases n - i,
        {
            push_str_encoding(&mut out, vals[i].address.as_str());
            proof {
                let pre = validator_set.spec_validators().subrange(0, i as int);
                let cur = validator_set.spec_validators().subrange(0, i + 1);
                assert(cur.drop_last() =~= pre);
                assert(cur.last() == validator_set.spec_validators()[i as int]);
                assert(out@ =~= validators_addr_encoding(cur));
            }
            i = i + 1;
        }
        proof {
            assert(validator_set.spec_validators().subrange(0, n as int)
                =~= validator_set.spec_validators());
        }
        let d = sha256(out.as_slice());
        let r: u64 = (d[0] as u64) + (d[1] as u64) * 0x100 + (d[2] as u64) * 0x1_0000 + (
        d[3] as u64) * 0x100_0000 + (d[4] as u64) * 0x1_0000_0000 + (d[5] as u64)
            * 0x100_0000_0000 + (d[6] as u64) * 0x1_0000_0000_0000 + (d[7] as u64)
            * 0x100_0000_0000_0000;
        r
    }

    /// Proposes a block from the given transactions: only the round's
    /// proposer may propose, and every transaction must pass pre-flight
    /// validation; the header commits to the chain tip, the current state
    /// root, the transaction chain hash, and the validator-set digest.
    /// The state is read, never changed.
    pub fn propose_block(&self, state: &mut State, transactions: Vec<Transaction>) -> (r: Result<
        Block,
        ConsensusError,
    >)
        requires
            self.wf(),
            old(state).wf(),
            old(state).block_height < u64::MAX,
        ensures
            *final(state) == *old(state),
            r is Ok <==> self.is_proposer_spec() && first_validate_error(
                old(state)@,
                transactions@,
            ) is None,
            !self.is_proposer_spec() ==> (r matches Err(e) && e matches ConsensusError::Internal(m)
                && m@ == "only proposer can create blocks"@),
            self.is_proposer_spec() ==> (match first_validate_error(old(state)@, transactions@) {
                Some(msg) => r matches Err(e) && e matches ConsensusError::InvalidStateTransition(
                    m,
                ) && m@ == msg,
                None => r matches Ok(b) && {
                    &&& b.transactions == transactions
                    &&& b.header.block_num == old(state).block_height + 1
                    &&& b.header.parent_hash@ == spec_parent_hash(old(state)@)
                    &&& b.header.state_root == old(state).root_hash
                    &&& b.header.merkle_root@ == tx_chain_hash(transactions@)
                    &&& b.header.validator_set_hash == vs_digest(self.validator_set)
                    &&& b.header.signatures@.len() == 0
                },
            }),
    {
        if !self.is_proposer() {
            return Err(
                ConsensusError::Internal(String::from_str("only proposer can create blocks")),
            );
        }
        let n = transactions.len();
        proof {
            assert(transactions@.skip(0) =~= transactions@);
        }
        let mut i: usize = 0;
        while i < n
            invariant
                n == transactions@.len(),
                i <= n,
                old(state).wf(),
                self.wf(),
                self.is_proposer_spec(),
                *state == *old(state),
                first_validate_error(old(state)@, transactions@) == first_validate_error(
                    old(state)@,
                    transactions@.skip(i as int),
                ),
                forall|k: int|
                    0 <= k < i ==> validate_error(old(state)@, #[trigger] transactions@[k])
                        is None,
            decreases n - i,
        {
            let ghost pre = transactions@.skip(i as int);
            proof {
                assert(pre[0] == transactions@[i as int]);
                assert(pre.skip(1) =~= transactions@.skip(i + 1));
            }
            match state.validate_transaction(&transactions[i]) {
                Ok(()) => (),
                Err(e) => {
                    proof {
                        assert(first_validate_error(old(state)@, pre) == validate_error(
                            old(state)@,
                            pre[0],
                        ));
                    }
                    return Err(e);
                },
            }
            i = i + 1;
        }
        proof {
            assert(transactions@.skip(n as int) =~= Seq::<Transaction>::empty());
        }
        let merkle_root = Ed25519Verifier::hash_transactions(transactions.as_slice());
        let parent_hash: [u8; 32] = if state.block_history.len() > 0 {
            state.block_history[state.block_history.len() - 1]
        } else {
            [0u8; 32]
        };
        proof {
            if old(state)@.height == 0 {
                assert(parent_hash@ =~= Seq::new(32, |i: int| 0u8));
            } else {
                let h = old(state)@.height;
                assert(old(state)@.history.contains_key(h));
                assert(old(state)@.history[h] == old(state).block_history@[h - 1]@);
            }
            assert(parent_hash@ == spec_parent_hash(old(state)@));
        }
        let header = BlockHeader::new(
            state.block_height + 1,
            parent_hash,
            current_timestamp(),
            state.root_hash(),
            merkle_root,
            Self::hash_validator_set(&self.validator_set),
        );
        Ok(Block::new(header, transactions))
    }

    /// Pre-flight validation of every transaction in a block against a
    /// state; reports the first failure.
    pub fn validate_state_transitions(&self, state: &State, block: &Block) -> (r: Result<
        (),
        ConsensusError,
    >)
        requires
            state.wf(),
        ensures
            r is Ok <==> first_validate_error(state@, block.transactions@) is None,
            r matches Err(e) ==> (e matches ConsensusError::InvalidStateTransition(m)
                && first_validate_error(state@, block.transactions@) == Some(m@)),
    {
        let n = block.transactions.len();
        proof {
            assert(block.transactions@.skip(0) =~= block.transactions@);
        }
        let mut i: usize = 0;
        while i < n
            invariant
                n == block.transactions@.len(),
                i <= n,
                state.wf(),
                first_validate_error(state@, block.transactions@) == first_validate_error(
                    state@,
                    block.transactions@.skip(i as int),
                ),
                forall|k: int|
                    0 <= k < i ==> validate_error(state@, #[trigger] block.transactions@[k])
                        is None,
            decreases n - i,
        {
            let ghost pre = block.transactions@.skip(i as int);
            proof {
                assert(pre[0] == block.transactions@[i as int]);
                assert(pre.skip(1) =~= block.transactions@.skip(i + 1));
            }
            match state.validate_transaction(&block.transactions[i]) {
                Ok(()) => (),
                Err(e) => {
                    proof {
                        assert(first_validate_error(state@, pre) == validate_error(
                            state@,
                            pre[0],
                        ));
                    }
                    return Err(e);
                },
            }
            i = i + 1;
        }
        proof {
            assert(block.transactions@.skip(n as int) =~= Seq::<Transaction>::empty());
        }
        Ok(())
    }

    /// Finalizes a block: applies its transactions in order to a working
    /// copy of the state (so a failure leaves the state untouched), bumps
    /// each sender's nonce, and on success commits the block, advancing the
    /// height and recording the header hash.
    pub fn finalize_block(&self, state: &mut State, block: Block) -> (r: Result<
        (),
        ConsensusError,
    >)
        requires
            old(state).wf(),
            apply_txs_fit(old(state)@.accounts, old(state)@.height, block.transactions@),
            apply_txs(old(state)@.accounts, old(state)@.height, block.transactions@) is Applied
                ==> old(state).block_height < u64::MAX,
        ensures
            final(state).wf(),
            match apply_txs(old(state)@.accounts, old(state)@.height, block.transactions@) {
                FinStep::Failed(msg) => r matches Err(e) && e matches
                    ConsensusError::InvalidStateTransition(m) && m@ == msg && *final(state)
                    == *old(state),
                FinStep::Applied(m2) => r is Ok && final(state)@.accounts == m2
                    && final(state).block_height == old(state).block_height + 1
                    && final(state)@.history == old(state)@.history.insert(
                    (old(state)@.height + 1) as u64,
                    crate::crypto::spec_header_hash(block.header),
                ) && final(state).root_hash@ == sha256_of(
                    crate::state::accounts_encoding(final(state).accounts_seq()),
                ) && final(state).receipts == old(state).receipts,
            },
    {
        let mut work = state.scratch();
        let ghost m0 = old(state)@.accounts;
        let ghost height = old(state)@.height;
        let n = block.transactions.len();
        proof {
            assert(block.transactions@.skip(0) =~= block.transactions@);
        }
        let mut i: usize = 0;
        while i < n
            invariant
                n == block.transactions@.len(),
                i <= n,
                work.wf(),
                m0 == old(state)@.accounts,
                height == old(state)@.height,
                *state == *old(state),
                old(state).wf(),
                work@.height == height,
                work.block_height == old(state).block_height,
                work@.history == old(state)@.history,
                apply_txs(m0, height, block.transactions@) == apply_txs(
                    work@.accounts,
                    height,
                    block.transactions@.skip(i as int),
                ),
                apply_txs_fit(work@.accounts, height, block.transactions@.skip(i as int)),
            decreases n - i,
        {
            let ghost pre = block.transactions@.skip(i as int);
            let ghost m_pre = work@.accounts;
            proof {
                assert(pre[0] == block.transactions@[i as int]);
                assert(pre.skip(1) =~= block.transactions@.skip(i + 1));
            }
            match &block.transactions[i] {
                Transaction::Transfer { from, to, amount, .. } => {
                    match work.transfer(from.as_str(), to.as_str(), *amount) {
                        Ok(()) => (),
                        Err(e) => {
                            proof {
                                assert(apply_tx(m_pre, height, pre[0]) is Failed);
                                assert(apply_txs(m0, height, block.transactions@) == apply_tx(
                                    m_pre,
                                    height,
                                    pre[0],
                                ));
                            }
                            return Err(e);
                        },
                    }
                    work.bump_nonce(from.as_str());
                },
                Transaction::TechGnosDeploy { sender, bytecode, .. } => {
                    let mut addr = sender.as_str().to_owned();
                    addr.append("_contract_");
                    let h = crate::decimal::u64_to_dec(work.block_height);
                    addr.append(h.as_str());
                    proof {
                        assert(addr@ =~= contract_address(sender@, height));
                    }
                    let mut code: Vec<u8> = Vec::new();
                    crate::codec::push_bytes(&mut code, bytecode.as_slice());
                    match work.deploy_contract(addr.as_str(), code) {
                        Ok(()) => (),
                        Err(e) => {
                            return Err(e);
                        },
                    }
                    work.bump_nonce(sender.as_str());
                },
                Transaction::TechGnosCall { sender, .. } => {
                    work.bump_nonce(sender.as_str());
                },
                Transaction::Governance { proposer, .. } => {
                    work.bump_nonce(proposer.as_str());
                },
                Transaction::InheritanceClaim { claimant, .. } => {
                    work.bump_nonce(claimant.as_str());
                },
            }
            proof {
                assert(apply_tx(m_pre, height, pre[0]) == FinStep::Applied(work@.accounts));
            }
            i = i + 1;
        }
        proof {
            assert(block.transactions@.skip(n as int) =~= Seq::<Transaction>::empty());
            assert(apply_txs(m0, height, block.transactions@) == FinStep::Applied(
                work@.accounts,
            ));
        }
        let header_bytes_vec = encode_header(&block.header);
        let block_hash = sha256(header_bytes_vec.as_slice());
        match work.commit_block(block_hash) {
            Ok(()) => (),
            Err(e) => {
                return Err(e);
            },
        }
        let ghost w = work;
        state.accounts = work.accounts;
        state.block_height = work.block_height;
        state.root_hash = work.root_hash;
        state.block_history = work.block_history;
        proof {
            assert(final(state)@ =~= w@);
        }
        Ok(())
    }

    /// Advances to the next round: the round number goes up by one, the
    /// phase returns to `NewRound`, and all votes are cleared.
    pub fn next_round(&mut self)
        requires
            old(self).wf(),
            old(self).round < u64::MAX,
        ensures
            final(self).wf(),
            final(self).round == old(self).round + 1,
            final(self).phase == BFTPhase::NewRound,
            final(self).votes.prevote_set() == Set::<Seq<char>>::empty(),
            final(self).votes.precommit_set() == Set::<Seq<char>>::empty(),
            final(self).votes.block_hash is None,
            final(self).node_id == old(self).node_id,
            final(self).validator_set == old(self).validator_set,
            final(self).crypto == old(self).crypto,
    {
        self.round = self.round + 1;
        self.phase = BFTPhase::NewRound;
        self.votes.reset();
    }

    /// The current round number.
    pub fn current_round(&self) -> (r: u64)
        ensures
            r == self.round,
    {
        self.round
    }

    /// The current phase.
    pub fn current_phase(&self) -> (r: BFTPhase)
        ensures
            r == self.phase,
    {
        self.phase
    }

    /// Records a prevote and moves the phase to `Prevote`.
    pub fn add_prevote(&mut self, validator: String) -> (r: Result<(), ConsensusError>)
        requires
            old(self).wf(),
        ensures
            final(self).wf(),
            r is Ok,
            final(self).votes.prevote_set() == old(self).votes.prevote_set().insert(validator@),
            final(self).votes.precommit_set() == old(self).votes.precommit_set(),
            final(self).phase == BFTPhase::Prevote,
            final(self).round == old(self).round,
            final(self).node_id == old(self).node_id,
            final(self).validator_set == old(self).validator_set,
    {
        self.votes.add_prevote(validator);
        self.phase = BFTPhase::Prevote;
        Ok(())
    }

    /// Records a precommit and moves the phase to `Precommit`.
    pub fn add_precommit(&mut self, validator: String) -> (r: Result<(), ConsensusError>)
        requires
            old(self).wf(),
        ensures
            final(self).wf(),
            r is Ok,
            final(self).votes.precommit_set() == old(self).votes.precommit_set().insert(
                validator@,
            ),
            final(self).votes.prevote_set() == old(self).votes.prevote_set(),
            final(self).phase == BFTPhase::Precommit,
            final(self).round == old(self).round,
            final(self).node_id == old(self).node_id,
            final(self).validator_set == old(self).validator_set,
    {
        self.votes.add_precommit(validator);
        self.phase = BFTPhase::Precommit;
        Ok(())
    }

    /// Whether a polka (a threshold of prevotes) is observed.
    pub fn has_polka(&self) -> (r: bool)
        requires
            self.wf(),
        ensures
            r == (self.votes.prevote_set().len() >= self.validator_set.spec_threshold()),
    {
        self.votes.has_polka(self.validator_set.threshold())
    }

    /// Whether a commit quorum (a threshold of precommits) is observed.
    pub fn has_commit(&self) -> (r: bool)
        requires
            self.wf(),
        ensures
            r == (self.votes.precommit_set().len() >= self.validator_set.spec_threshold()),
    {
        self.votes.has_commit(self.validator_set.threshold())
    }
}

} // verus!
