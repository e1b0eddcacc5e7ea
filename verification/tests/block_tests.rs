use oso_consensus::{Block, BlockHeader, ConsensusError, Transaction};

#[test]
fn test_transaction_sender() {
    let tx = Transaction::Transfer {
        from: "alice".to_string(),
        to: "bob".to_string(),
        amount: 100,
        nonce: 1,
    };
    assert_eq!(tx.sender(), "alice");
    assert_eq!(tx.nonce(), 1);
}

#[test]
fn test_block_header_creation() {
    let header = BlockHeader::new(1, [0u8; 32], 1000, [1u8; 32], [2u8; 32], 1);
    assert_eq!(header.block_num, 1);
    assert_eq!(header.signature_count(), 0);
}

#[test]
fn test_block_with_transactions() {
    let header = BlockHeader::new(1, [0u8; 32], 1000, [1u8; 32], [2u8; 32], 1);
    let tx = Transaction::Transfer {
        from: "alice".to_string(),
        to: "bob".to_string(),
        amount: 100,
        nonce: 1,
    };
    let block = Block::new(header, vec![tx]);
    assert_eq!(block.transaction_count(), 1);
}

#[test]
fn test_block_structure_validation() {
    let header = BlockHeader::new(1, [0u8; 32], 1000, [1u8; 32], [2u8; 32], 1);
    let tx = Transaction::Transfer {
        from: "alice".to_string(),
        to: "bob".to_string(),
        amount: 100,
        nonce: 1,
    };
    let block = Block::new(header, vec![tx]);
    assert!(block.verify_structure().is_ok());
}

#[test]
fn test_block_structure_empty_transactions() {
    let header = BlockHeader::new(1, [0u8; 32], 1000, [1u8; 32], [2u8; 32], 1);
    let block = Block::new(header, vec![]);
    assert!(block.verify_structure().is_err());
}

#[test]
fn zero_block_num_is_rejected() {
    let header = BlockHeader::new(0, [0u8; 32], 1000, [1u8; 32], [2u8; 32], 1);
    let tx = Transaction::Transfer {
        from: "alice".to_string(),
        to: "bob".to_string(),
        amount: 100,
        nonce: 0,
    };
    let block = Block::new(header, vec![tx]);
    assert_eq!(
        block.verify_structure().unwrap_err(),
        ConsensusError::InvalidBlockStructure("block_num cannot be 0".to_string())
    );
}

#[test]
fn empty_transactions_message() {
    let header = BlockHeader::new(1, [0u8; 32], 1000, [1u8; 32], [2u8; 32], 1);
    let block = Block::new(header, vec![]);
    assert_eq!(
        block.verify_structure().unwrap_err(),
        ConsensusError::InvalidBlockStructure(
            "block must contain at least one transaction".to_string()
        )
    );
}

#[test]
fn empty_sender_is_rejected() {
    let header = BlockHeader::new(1, [0u8; 32], 1000, [1u8; 32], [2u8; 32], 1);
    let tx = Transaction::Transfer {
        from: "".to_string(),
        to: "bob".to_string(),
        amount: 100,
        nonce: 0,
    };
    let block = Block::new(header, vec![tx]);
    assert_eq!(
        block.verify_structure().unwrap_err(),
        ConsensusError::InvalidBlockStructure("transaction sender cannot be empty".to_string())
    );
}

#[test]
fn empty_bytecode_is_rejected() {
    let tx = Transaction::TechGnosDeploy {
        bytecode: vec![],
        sender: "carol".to_string(),
        gas: 1000,
        nonce: 0,
    };
    assert_eq!(
        Block::verify_transaction(&tx).unwrap_err(),
        ConsensusError::InvalidBlockStructure("contract bytecode cannot be empty".to_string())
    );
}

#[test]
fn empty_contract_and_function_are_rejected() {
    let tx = Transaction::TechGnosCall {
        contract: "".to_string(),
        function: "run".to_string(),
        args: vec![],
        sender: "carol".to_string(),
        gas: 1000,
        nonce: 0,
    };
    assert_eq!(
        Block::verify_transaction(&tx).unwrap_err(),
        ConsensusError::InvalidBlockStructure("contract address cannot be empty".to_string())
    );
    let tx = Transaction::TechGnosCall {
        contract: "c1".to_string(),
        function: "".to_string(),
        args: vec![],
        sender: "carol".to_string(),
        gas: 1000,
        nonce: 0,
    };
    assert_eq!(
        Block::verify_transaction(&tx).unwrap_err(),
        ConsensusError::InvalidBlockStructure("function name cannot be empty".to_string())
    );
}

#[test]
fn zero_amount_and_empty_recipient_are_rejected() {
    let tx = Transaction::Transfer {
        from: "alice".to_string(),
        to: "bob".to_string(),
        amount: 0,
        nonce: 0,
    };
    assert_eq!(
        Block::verify_transaction(&tx).unwrap_err(),
        ConsensusError::InvalidBlockStructure("transfer amount must be positive".to_string())
    );
    let tx = Transaction::Transfer {
        from: "alice".to_string(),
        to: "".to_string(),
        amount: 5,
        nonce: 0,
    };
    assert_eq!(
        Block::verify_transaction(&tx).unwrap_err(),
        ConsensusError::InvalidBlockStructure("transfer addresses cannot be empty".to_string())
    );
}

#[test]
fn governance_and_claims_pass_structure() {
    let tx = Transaction::Governance {
        proposal_id: "p1".to_string(),
        action: vec![1, 2],
        proposer: "dana".to_string(),
        nonce: 0,
    };
    assert!(Block::verify_transaction(&tx).is_ok());
    let tx = Transaction::InheritanceClaim {
        wallet_id: 77,
        claimant: "heir".to_string(),
        nonce: 0,
    };
    assert!(Block::verify_transaction(&tx).is_ok());
}

#[test]
fn add_signature_replaces_same_address() {
    let mut header = BlockHeader::new(1, [0u8; 32], 1000, [1u8; 32], [2u8; 32], 1);
    header.add_signature("v1".to_string(), vec![1; 64]);
    header.add_signature("v2".to_string(), vec![2; 64]);
    assert_eq!(header.signature_count(), 2);
    header.add_signature("v1".to_string(), vec![3; 64]);
    assert_eq!(header.signature_count(), 2);
}

#[test]
fn size_counts_the_canonical_encoding() {
    let header = BlockHeader::new(1, [0u8; 32], 1000, [1u8; 32], [2u8; 32], 1);
    let tx = Transaction::Transfer {
        from: "alice".to_string(),
        to: "bob".to_string(),
        amount: 100,
        nonce: 1,
    };
    let small = Block::new(header, vec![tx.clone()]);
    let header = BlockHeader::new(1, [0u8; 32], 1000, [1u8; 32], [2u8; 32], 1);
    let big = Block::new(header, vec![tx.clone(), tx]);
    assert!(small.size_bytes() > 0);
    assert!(big.size_bytes() > small.size_bytes());
    let mut signed = small.clone();
    signed.header.add_signature("v1".to_string(), vec![0; 64]);
    assert!(signed.size_bytes() > small.size_bytes());
}
