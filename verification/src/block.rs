//! Blocks, headers, and the transaction sum type.

use vstd::prelude::*;

use crate::errors::ConsensusError;

verus! {

/// A transaction on the chain. Every variant carries a nonce for replay
/// protection and exposes a sender through [`Transaction::sender`].
#[derive(Clone, Debug, Eq, PartialEq)]
pub enum Transaction {
    /// Deploy a smart contract.
    TechGnosDeploy { bytecode: Vec<u8>, sender: String, gas: u64, nonce: u64 },
    /// Call a smart contract function.
    TechGnosCall {
        contract: String,
        function: String,
        args: Vec<Vec<u8>>,
        sender: String,
        gas: u64,
        nonce: u64,
    },
    /// Transfer tokens.
    Transfer { from: String, to: String, amount: u64, nonce: u64 },
    /// Governance proposal.
    Governance { proposal_id: String, action: Vec<u8>, proposer: String, nonce: u64 },
    /// Inheritance wallet claim.
    InheritanceClaim { wallet_id: u16, claimant: String, nonce: u64 },
}

/// The sender address of a transaction.
pub open spec fn tx_sender(tx: Transaction) -> Seq<char> {
    match tx {
        Transaction::TechGnosDeploy { sender, .. } => sender@,
        Transaction::TechGnosCall { sender, .. } => sender@,
        Transaction::Transfer { from, .. } => from@,
        Transaction::Governance { proposer, .. } => proposer@,
        Transaction::InheritanceClaim { claimant, .. } => claimant@,
    }
}

/// The nonce of a transaction.
pub open spec fn tx_nonce(tx: Transaction) -> u64 {
    match tx {
        Transaction::TechGnosDeploy { nonce, .. } => nonce,
        Transaction::TechGnosCall { nonce, .. } => nonce,
        Transaction::Transfer { nonce, .. } => nonce,
        Transaction::Governance { nonce, .. } => nonce,
        Transaction::InheritanceClaim { nonce, .. } => nonce,
    }
}

/// The gas budget of a transaction; zero for variants without one.
pub open spec fn tx_gas_budget(tx: Transaction) -> u64 {
    match tx {
        Transaction::TechGnosDeploy { gas, .. } => gas,
        Transaction::TechGnosCall { gas, .. } => gas,
        _ => 0,
    }
}

/// The structural preconditions of a transaction: a non-empty sender, plus
/// the per-variant requirements on its payload.
pub open spec fn tx_structure_ok(tx: Transaction) -> bool {
    tx_sender(tx).len() > 0 && match tx {
        Transaction::TechGnosDeploy { bytecode, .. } => bytecode@.len() > 0,
        Transaction::TechGnosCall { contract, function, .. } => contract@.len() > 0
            && function@.len() > 0,
        Transaction::Transfer { from, to, amount, .. } => from@.len() > 0 && to@.len() > 0
            && amount > 0,
        _ => true,
    }
}

/// The message of the first structural check a transaction fails, if any.
/// The sender check comes first, then the variant-specific checks in their
/// declared order.
pub open spec fn tx_structure_error(tx: Transaction) -> Option<Seq<char>> {
    if tx_sender(tx).len() == 0 {
        Some("transaction sender cannot be empty"@)
    } else {
        match tx {
            Transaction::TechGnosDeploy { bytecode, .. } => if bytecode@.len() == 0 {
                Some("contract bytecode cannot be empty"@)
            } else {
                None
            },
            Transaction::TechGnosCall { contract, function, .. } => if contract@.len() == 0 {
                Some("contract address cannot be empty"@)
            } else if function@.len() == 0 {
                Some("function name cannot be empty"@)
            } else {
                None
            },
            Transaction::Transfer { from, to, amount, .. } => if from@.len() == 0 || to@.len()
                == 0 {
                Some("transfer addresses cannot be empty"@)
            } else if amount == 0 {
                Some("transfer amount must be positive"@)
            } else {
                None
            },
            _ => None,
        }
    }
}

/// The two spec views of a transaction's structure agree.
pub proof fn lemma_tx_structure(tx: Transaction)
    ensures
        tx_structure_error(tx) is None <==> tx_structure_ok(tx),
{
}

/// The message of the first structurally invalid transaction in a list.
pub open spec fn first_tx_structure_error(txs: Seq<Transaction>) -> Option<Seq<char>>
    decreases txs.len(),
{
    if txs.len() == 0 {
        None
    } else if tx_structure_error(txs[0]) is Some {
        tx_structure_error(txs[0])
    } else {
        first_tx_structure_error(txs.skip(1))
    }
}

impl Transaction {
    /// The sender address: the party whose nonce the transaction consumes.
    pub fn sender(&self) -> (r: &str)
        ensures
            r@ == tx_sender(*self),
    {
        match self {
            Transaction::TechGnosDeploy { sender, .. } => sender.as_str(),
            Transaction::TechGnosCall { sender, .. } => sender.as_str(),
            Transaction::Transfer { from, .. } => from.as_str(),
            Transaction::Governance { proposer, .. } => proposer.as_str(),
            Transaction::InheritanceClaim { claimant, .. } => claimant.as_str(),
        }
    }

    /// The replay-protection nonce.
    pub fn nonce(&self) -> (r: u64)
        ensures
            r == tx_nonce(*self),
    {
        match self {
            Transaction::TechGnosDeploy { nonce, .. } => *nonce,
            Transaction::TechGnosCall { nonce, .. } => *nonce,
            Transaction::Transfer { nonce, .. } => *nonce,
            Transaction::Governance { nonce, .. } => *nonce,
            Transaction::InheritanceClaim { nonce, .. } => *nonce,
        }
    }

    /// The gas budget; zero for variants that carry none.
    pub fn gas_budget(&self) -> (r: u64)
        ensures
            r == tx_gas_budget(*self),
    {
        match self {
            Transaction::TechGnosDeploy { gas, .. } => *gas,
            Transaction::TechGnosCall { gas, .. } => *gas,
            _ => 0,
        }
    }
}

/// Block header: chain position, commitments, and gathered signatures.
/// The signature list maps validator addresses to signature bytes; the
/// mutators keep its addresses unique.
#[derive(Clone, Debug)]
pub struct BlockHeader {
    /// Block number (height); positive for every non-genesis block.
    pub block_num: u64,
    /// Hash of the parent block.
    pub parent_hash: [u8; 32],
    /// Milliseconds since the epoch.
    pub timestamp: u64,
    /// Root hash of the world state this block builds on.
    pub state_root: [u8; 32],
    /// Commitment to the transaction list.
    pub merkle_root: [u8; 32],
    /// Digest of the validator set active at this block.
    pub validator_set_hash: u64,
    /// Signatures from validators, one entry per address.
    pub signatures: Vec<(String, Vec<u8>)>,
}

/// No two signature entries share an address.
pub open spec fn sigs_unique(sigs: Seq<(String, Vec<u8>)>) -> bool {
    forall|i: int, j: int| 0 <= i < j < sigs.len() ==> sigs[i].0@ != sigs[j].0@
}

impl BlockHeader {
    /// A header with the given fields and no signatures yet.
    pub fn new(
        block_num: u64,
        parent_hash: [u8; 32],
        timestamp: u64,
        state_root: [u8; 32],
        merkle_root: [u8; 32],
        validator_set_hash: u64,
    ) -> (h: BlockHeader)
        ensures
            h.block_num == block_num,
            h.parent_hash == parent_hash,
            h.timestamp == timestamp,
            h.state_root == state_root,
            h.merkle_root == merkle_root,
            h.validator_set_hash == validator_set_hash,
            h.signatures@ == Seq::<(String, Vec<u8>)>::empty(),
    {
        BlockHeader {
            block_num,
            parent_hash,
            timestamp,
            state_root,
            merkle_root,
            validator_set_hash,
            signatures: Vec::new(),
        }
    }

    /// Records a validator's signature, replacing any earlier one from the
    /// same address.
    pub fn add_signature(&mut self, validator_address: String, signature: Vec<u8>)
        ensures
            ({
                let sigs = old(self).signatures@;
                if (exists|j: int| 0 <= j < sigs.len() && #[trigger] sigs[j].0@
                    == validator_address@) {
                    exists|j: int|
                        0 <= j < sigs.len() && #[trigger] sigs[j].0@ == validator_address@
                            && final(self).signatures@ == sigs.update(
                            j,
                            (validator_address, signature),
                        )
                } else {
                    final(self).signatures@ == sigs.push((validator_address, signature))
                }
            }),
            sigs_unique(old(self).signatures@) ==> sigs_unique(final(self).signatures@),
            final(self).block_num == old(self).block_num,
            final(self).parent_hash == old(self).parent_hash,
            final(self).timestamp == old(self).timestamp,
            final(self).state_root == old(self).state_root,
            final(self).merkle_root == old(self).merkle_root,
            final(self).validator_set_hash == old(self).validator_set_hash,
    {
        let ghost sigs = self.signatures@;
        let ghost entry: (String, Vec<u8>) = (validator_address, signature);
        let key = validator_address.as_str().to_owned();
        let mut i: usize = 0;
        while i < self.signatures.len()
            invariant
                i <= sigs.len(),
                sigs == old(self).signatures@,
                key@ == validator_address@,
                entry == (validator_address, signature),
                self.block_num == old(self).block_num,
                self.parent_hash == old(self).parent_hash,
                self.timestamp == old(self).timestamp,
                self.state_root == old(self).state_root,
                self.merkle_root == old(self).merkle_root,
                self.validator_set_hash == old(self).validator_set_hash,
                self.signatures@ == sigs,
                forall|k: int| 0 <= k < i ==> sigs[k].0@ != validator_address@,
            decreases sigs.len() - i,
        {
            if self.signatures[i].0.eq(&key) {
                self.signatures[i] = (validator_address, signature);
                proof {
                    assert(sigs[i as int].0@ == entry.0@);
                    assert(self.signatures@ =~= sigs.update(i as int, entry));
                    if sigs_unique(sigs) {
                        assert forall|p: int, q: int|
                            0 <= p < q < self.signatures@.len() implies self.signatures@[p].0@
                            != self.signatures@[q].0@ by {
                            if p != i && q != i {
                                assert(sigs[p].0@ != sigs[q].0@);
                            }
                        }
                    }
                }
                return ;
            }
            i = i + 1;
        }
        self.signatures.push((validator_address, signature));
    }

    /// The number of validators that have signed.
    pub fn signature_count(&self) -> (n: usize)
        ensures
            n == self.signatures@.len(),
    {
        self.signatures.len()
    }
}

/// A complete block: a header and an ordered transaction list.
#[derive(Clone, Debug)]
pub struct Block {
    /// Header (metadata and signatures).
    pub header: BlockHeader,
    /// Transactions in this block.
    pub transactions: Vec<Transaction>,
}

/// The structural invariant of a block: a positive block number, at least one
/// transaction, and every transaction structurally valid.
pub open spec fn block_structure_ok(b: Block) -> bool {
    b.header.block_num > 0 && b.transactions@.len() > 0 && forall|i: int|
        0 <= i < b.transactions@.len() ==> tx_structure_ok(#[trigger] b.transactions@[i])
}

/// The message of the first structural check a block fails, if any.
pub open spec fn block_structure_error(b: Block) -> Option<Seq<char>> {
    if b.header.block_num == 0 {
        Some("block_num cannot be 0"@)
    } else if b.transactions@.len() == 0 {
        Some("block must contain at least one transaction"@)
    } else {
        first_tx_structure_error(b.transactions@)
    }
}

impl Block {
    /// A block from a header and transactions.
    pub fn new(header: BlockHeader, transactions: Vec<Transaction>) -> (b: Block)
        ensures
            b.header == header,
            b.transactions == transactions,
    {
        Block { header, transactions }
    }

    /// Checks the structural invariant: succeeds exactly on blocks with a
    /// positive block number, a non-empty transaction list, and structurally
    /// valid transactions; otherwise reports the first violation.
    pub fn verify_structure(&self) -> (r: Result<(), ConsensusError>)
        ensures
            r is Ok <==> block_structure_ok(*self),
            r matches Err(e) ==> e matches ConsensusError::InvalidBlockStructure(m)
                && block_structure_error(*self) == Some(m@),
    {
        if self.header.block_num == 0 {
            return Err(
                ConsensusError::InvalidBlockStructure(String::from_str("block_num cannot be 0")),
            );
        }
        if self.transactions.len() == 0 {
            return Err(
                ConsensusError::InvalidBlockStructure(
                    String::from_str("block must contain at least one transaction"),
                ),
            );
        }
        let n = self.transactions.len();
        proof {
            assert(self.transactions@.skip(0) =~= self.transactions@);
        }
        let mut i: usize = 0;
        while i < n
            invariant
                n == self.transactions@.len(),
                i <= n,
                self.header.block_num != 0,
                n > 0,
                forall|k: int| 0 <= k < i ==> tx_structure_ok(#[trigger] self.transactions@[k]),
                first_tx_structure_error(self.transactions@) == first_tx_structure_error(
                    self.transactions@.skip(i as int),
                ),
            decreases n - i,
        {
            let ghost pre = self.transactions@.skip(i as int);
            proof {
                assert(pre[0] == self.transactions@[i as int]);
                assert(pre.skip(1) =~= self.transactions@.skip(i + 1));
            }
            match Self::verify_transaction(&self.transactions[i]) {
                Ok(()) => (),
                Err(e) => {
                    proof {
                        lemma_tx_structure(self.transactions@[i as int]);
                        assert(first_tx_structure_error(pre) == tx_structure_error(pre[0]));
                        assert(block_structure_error(*self) == tx_structure_error(
                            self.transactions@[i as int],
                        ));
                    }
                    return Err(e);
                },
            }
            proof {
                lemma_tx_structure(self.transactions@[i as int]);
            }
            i = i + 1;
        }
        proof {
            assert(self.transactions@.skip(n as int) =~= Seq::<Transaction>::empty());
        }
        Ok(())
    }

    /// Checks one transaction's structural preconditions; reports the first
    /// violated one.
    pub fn verify_transaction(tx: &Transaction) -> (r: Result<(), ConsensusError>)
        ensures
            r is Ok <==> tx_structure_ok(*tx),
            r matches Err(e) ==> e matches ConsensusError::InvalidBlockStructure(m)
                && tx_structure_error(*tx) == Some(m@),
    {
        if tx.sender().is_empty() {
            return Err(
                ConsensusError::InvalidBlockStructure(
                    String::from_str("transaction sender cannot be empty"),
                ),
            );
        }
        match tx {
            Transaction::TechGnosDeploy { bytecode, .. } => {
                if bytecode.len() == 0 {
                    return Err(
                        ConsensusError::InvalidBlockStructure(
                            String::from_str("contract bytecode cannot be empty"),
                        ),
                    );
                }
            },
            Transaction::TechGnosCall { contract, function, .. } => {
                if contract.as_str().is_empty() {
                    return Err(
                        ConsensusError::InvalidBlockStructure(
                            String::from_str("contract address cannot be empty"),
                        ),
                    );
                }
                if function.as_str().is_empty() {
                    return Err(
                        ConsensusError::InvalidBlockStructure(
                            String::from_str("function name cannot be empty"),
                        ),
                    );
                }
            },
            Transaction::Transfer { from, to, amount, .. } => {
                if from.as_str().is_empty() || to.as_str().is_empty() {
                    return Err(
                        ConsensusError::InvalidBlockStructure(
                            String::from_str("transfer addresses cannot be empty"),
                        ),
                    );
                }
                if *amount == 0 {
                    return Err(
                        ConsensusError::InvalidBlockStructure(
                            String::from_str("transfer amount must be positive"),
                        ),
                    );
                }
            },
            _ => (),
        }
        Ok(())
    }

    /// The size of the block's canonical byte encoding.
    pub fn size_bytes(&self) -> (n: usize)
        ensures
            n == crate::codec::block_encoding(*self).len(),
    {
        crate::codec::encode_block(self).len()
    }

    /// The number of transactions in the block.
    pub fn transaction_count(&self) -> (n: usize)
        ensures
            n == self.transactions@.len(),
    {
        self.transactions.len()
    }
}

} // verus!
