use oso_consensus::{ConsensusError, OsoConsensusNode, Transaction, Validator};

#[test]
fn test_node_creation() {
    let validators = vec![
        Validator::new("validator_1".to_string(), [0u8; 32]),
        Validator::new("validator_2".to_string(), [1u8; 32]),
    ];

    let node = OsoConsensusNode::new("node_1".to_string(), validators, 2);
    assert!(node.is_ok());
}

#[test]
fn node_rejects_bad_validator_sets() {
    assert_eq!(
        OsoConsensusNode::new("n".to_string(), vec![], 1).unwrap_err(),
        ConsensusError::EmptyValidatorSet
    );
    let dup = vec![
        Validator::new("v1".to_string(), [0u8; 32]),
        Validator::new("v1".to_string(), [1u8; 32]),
    ];
    assert_eq!(
        OsoConsensusNode::new("n".to_string(), dup, 2).unwrap_err(),
        ConsensusError::DuplicateValidator
    );
}

#[test]
fn basic_transfer_through_a_block() {
    // propose from the round-zero proposer, then finalize the block
    let validators = vec![
        Validator::new("v1".to_string(), [1u8; 32]),
        Validator::new("v2".to_string(), [2u8; 32]),
        Validator::new("v3".to_string(), [3u8; 32]),
    ];
    let mut node = OsoConsensusNode::new("v1".to_string(), validators, 3).unwrap();
    node.state.update_balance("alice", 1000).unwrap();

    let tx = Transaction::Transfer {
        from: "alice".to_string(),
        to: "bob".to_string(),
        amount: 100,
        nonce: 0,
    };
    assert!(node.state.validate_transaction(&tx).is_ok());

    let root_before = node.state_root();
    let block = node.propose_block(vec![tx]).unwrap();
    assert_eq!(block.header.block_num, 1);
    assert_eq!(block.header.parent_hash, [0u8; 32]);

    node.finalize_block(block).unwrap();
    assert_eq!(node.state.get_account("alice").unwrap().ase_balance, 900);
    assert_eq!(node.state.get_account("alice").unwrap().nonce, 1);
    assert_eq!(node.state.get_account("bob").unwrap().ase_balance, 100);
    assert_eq!(node.block_height(), 1);
    assert_ne!(node.state_root(), root_before);
}

#[test]
fn non_proposer_cannot_propose() {
    let validators = vec![
        Validator::new("v1".to_string(), [1u8; 32]),
        Validator::new("v2".to_string(), [2u8; 32]),
        Validator::new("v3".to_string(), [3u8; 32]),
    ];
    let mut node = OsoConsensusNode::new("v2".to_string(), validators, 3).unwrap();
    node.state.update_balance("alice", 1000).unwrap();
    let tx = Transaction::Transfer {
        from: "alice".to_string(),
        to: "bob".to_string(),
        amount: 100,
        nonce: 0,
    };
    assert_eq!(
        node.propose_block(vec![tx]).unwrap_err(),
        ConsensusError::Internal("only proposer can create blocks".to_string())
    );
}

#[test]
fn validate_block_checks_structure_first() {
    let validators = vec![
        Validator::new("v1".to_string(), [1u8; 32]),
        Validator::new("v2".to_string(), [2u8; 32]),
    ];
    let node = OsoConsensusNode::new("v1".to_string(), validators, 2).unwrap();
    let header = oso_consensus::BlockHeader::new(0, [0u8; 32], 1000, [1u8; 32], [2u8; 32], 1);
    let tx = Transaction::Transfer {
        from: "alice".to_string(),
        to: "bob".to_string(),
        amount: 100,
        nonce: 0,
    };
    let block = oso_consensus::Block::new(header, vec![tx]);
    assert_eq!(
        node.validate_block(&block).unwrap_err(),
        ConsensusError::InvalidBlockStructure("block_num cannot be 0".to_string())
    );
}

#[test]
fn validate_block_requires_quorum_of_signatures() {
    let validators = vec![
        Validator::new("v1".to_string(), [1u8; 32]),
        Validator::new("v2".to_string(), [2u8; 32]),
    ];
    let node = OsoConsensusNode::new("v1".to_string(), validators, 2).unwrap();
    let header = oso_consensus::BlockHeader::new(1, [0u8; 32], 1000, [1u8; 32], [2u8; 32], 1);
    let tx = Transaction::Transfer {
        from: "alice".to_string(),
        to: "bob".to_string(),
        amount: 100,
        nonce: 0,
    };
    let block = oso_consensus::Block::new(header, vec![tx]);
    assert_eq!(
        node.validate_block(&block).unwrap_err(),
        ConsensusError::InsufficientSignatures { required: 2, actual: 0 }
    );
}
