use oso_consensus::{
    BFTConsensus, BFTPhase, Block, BlockHeader, BlockVotes, ConsensusError, State, Transaction,
    Validator, ValidatorSet,
};

fn three_validators() -> Vec<Validator> {
    vec![
        Validator::new("node_1".to_string(), [1u8; 32]),
        Validator::new("node_2".to_string(), [2u8; 32]),
        Validator::new("node_3".to_string(), [3u8; 32]),
    ]
}

#[test]
fn test_consensus_creation() {
    let validator_set = ValidatorSet::new(three_validators(), 3).unwrap();
    let consensus = BFTConsensus::new("node_1".to_string(), validator_set);

    assert_eq!(consensus.current_round(), 0);
    assert_eq!(consensus.current_phase(), BFTPhase::NewRound);
}

#[test]
fn test_round_increment() {
    let validator_set = ValidatorSet::new(three_validators(), 3).unwrap();
    let mut consensus = BFTConsensus::new("node_1".to_string(), validator_set);

    assert_eq!(consensus.current_round(), 0);
    consensus.next_round();
    assert_eq!(consensus.current_round(), 1);
}

#[test]
fn test_block_votes() {
    let mut votes = BlockVotes::new();
    votes.add_prevote("validator_1".to_string());
    votes.add_prevote("validator_2".to_string());

    assert_eq!(votes.prevote_count(), 2);
}

#[test]
fn test_propose_block() {
    let validators = vec![
        Validator::new("node_1".to_string(), [1u8; 32]),
        Validator::new("node_2".to_string(), [2u8; 32]),
    ];
    let validator_set = ValidatorSet::new(validators, 2).unwrap();
    let consensus = BFTConsensus::new("node_1".to_string(), validator_set);

    let mut state = State::new();
    state.update_balance("alice", 1000).unwrap();

    let tx = Transaction::Transfer {
        from: "alice".to_string(),
        to: "bob".to_string(),
        amount: 100,
        nonce: 0,
    };

    let result = consensus.propose_block(&mut state, vec![tx]);
    assert!(result.is_ok());
}

#[test]
fn proposer_rotation_over_three_rounds() {
    // for round r the proposer is validators[r mod 3]; everyone else is
    // turned away with an Internal error
    let names = ["node_1", "node_2", "node_3"];
    for round in 0..3usize {
        for (i, name) in names.iter().enumerate() {
            let validator_set = ValidatorSet::new(three_validators(), 3).unwrap();
            let mut engine = BFTConsensus::new(name.to_string(), validator_set);
            for _ in 0..round {
                engine.next_round();
            }
            let mut state = State::new();
            state.update_balance("alice", 1000).unwrap();
            let tx = Transaction::Transfer {
                from: "alice".to_string(),
                to: "bob".to_string(),
                amount: 100,
                nonce: 0,
            };
            let result = engine.propose_block(&mut state, vec![tx]);
            if i == round % 3 {
                assert!(result.is_ok());
            } else {
                assert_eq!(
                    result.unwrap_err(),
                    ConsensusError::Internal("only proposer can create blocks".to_string())
                );
            }
        }
    }
}

#[test]
fn quorum_with_threshold_two() {
    // two prevotes reach a polka at threshold two, two precommits a commit
    let mut votes = BlockVotes::new();
    votes.add_prevote("v1".to_string());
    assert!(!votes.has_polka(2));
    votes.add_prevote("v2".to_string());
    assert!(votes.has_polka(2));
    votes.add_precommit("v1".to_string());
    votes.add_precommit("v2".to_string());
    assert!(votes.has_commit(2));
}

#[test]
fn duplicate_votes_do_not_count_twice() {
    let mut votes = BlockVotes::new();
    votes.add_prevote("v1".to_string());
    votes.add_prevote("v1".to_string());
    assert_eq!(votes.prevote_count(), 1);
    assert!(!votes.has_polka(2));
}

#[test]
fn polka_stays_until_round_reset() {
    let validator_set = ValidatorSet::new(three_validators(), 3).unwrap();
    let mut engine = BFTConsensus::new("node_1".to_string(), validator_set);
    engine.add_prevote("node_1".to_string()).unwrap();
    engine.add_prevote("node_2".to_string()).unwrap();
    engine.add_prevote("node_3".to_string()).unwrap();
    assert!(engine.has_polka());
    // further votes never lose the polka
    engine.add_prevote("node_1".to_string()).unwrap();
    engine.add_precommit("node_2".to_string()).unwrap();
    assert!(engine.has_polka());
    // only the round reset clears it
    engine.next_round();
    assert!(!engine.has_polka());
}

#[test]
fn round_reset_clears_everything() {
    let validator_set = ValidatorSet::new(three_validators(), 3).unwrap();
    let mut engine = BFTConsensus::new("node_1".to_string(), validator_set);
    engine.add_prevote("node_1".to_string()).unwrap();
    engine.add_precommit("node_2".to_string()).unwrap();
    assert_eq!(engine.current_phase(), BFTPhase::Precommit);
    let round_before = engine.current_round();
    engine.next_round();
    assert_eq!(engine.current_round(), round_before + 1);
    assert_eq!(engine.current_phase(), BFTPhase::NewRound);
    assert_eq!(engine.votes.prevote_count(), 0);
    assert_eq!(engine.votes.precommit_count(), 0);
}

#[test]
fn finalize_applies_transfers_and_commits() {
    let validator_set = ValidatorSet::new(three_validators(), 3).unwrap();
    let engine = BFTConsensus::new("node_1".to_string(), validator_set);
    let mut state = State::new();
    state.update_balance("alice", 1000).unwrap();
    let tx = Transaction::Transfer {
        from: "alice".to_string(),
        to: "bob".to_string(),
        amount: 100,
        nonce: 0,
    };
    let header = BlockHeader::new(1, [0u8; 32], 1000, [0u8; 32], [2u8; 32], 1);
    let block = Block::new(header, vec![tx]);
    engine.finalize_block(&mut state, block).unwrap();
    assert_eq!(state.get_account("alice").unwrap().ase_balance, 900);
    assert_eq!(state.get_account("alice").unwrap().nonce, 1);
    assert_eq!(state.get_account("bob").unwrap().ase_balance, 100);
    assert_eq!(state.block_height(), 1);
}

#[test]
fn finalize_failure_leaves_state_unchanged() {
    let validator_set = ValidatorSet::new(three_validators(), 3).unwrap();
    let engine = BFTConsensus::new("node_1".to_string(), validator_set);
    let mut state = State::new();
    state.update_balance("alice", 50).unwrap();
    let good = Transaction::Transfer {
        from: "alice".to_string(),
        to: "bob".to_string(),
        amount: 30,
        nonce: 0,
    };
    let bad = Transaction::Transfer {
        from: "alice".to_string(),
        to: "bob".to_string(),
        amount: 1000,
        nonce: 0,
    };
    let header = BlockHeader::new(1, [0u8; 32], 1000, [0u8; 32], [2u8; 32], 1);
    let block = Block::new(header, vec![good, bad]);
    let err = engine.finalize_block(&mut state, block).unwrap_err();
    assert_eq!(
        err,
        ConsensusError::InvalidStateTransition("insufficient balance: 20 < 1000".to_string())
    );
    // the earlier transfer in the same block was rolled back
    assert_eq!(state.get_account("alice").unwrap().ase_balance, 50);
    assert_eq!(state.get_account("alice").unwrap().nonce, 0);
    assert!(state.get_account("bob").is_none());
    assert_eq!(state.block_height(), 0);
}

#[test]
fn finalize_deploy_derives_contract_address() {
    let validator_set = ValidatorSet::new(three_validators(), 3).unwrap();
    let engine = BFTConsensus::new("node_1".to_string(), validator_set);
    let mut state = State::new();
    let tx = Transaction::TechGnosDeploy {
        bytecode: vec![7, 8, 9],
        sender: "carol".to_string(),
        gas: 10,
        nonce: 0,
    };
    let header = BlockHeader::new(1, [0u8; 32], 1000, [0u8; 32], [2u8; 32], 1);
    let block = Block::new(header, vec![tx]);
    engine.finalize_block(&mut state, block).unwrap();
    let contract = state.get_account("carol_contract_0").unwrap();
    assert_eq!(contract.code.as_ref().unwrap(), &vec![7, 8, 9]);
    assert_eq!(state.get_account("carol").unwrap().nonce, 1);
}

#[test]
fn validate_state_transitions_reports_first_failure() {
    let validator_set = ValidatorSet::new(three_validators(), 3).unwrap();
    let engine = BFTConsensus::new("node_1".to_string(), validator_set);
    let mut state = State::new();
    state.update_balance("alice", 10).unwrap();
    let tx = Transaction::Transfer {
        from: "alice".to_string(),
        to: "bob".to_string(),
        amount: 100,
        nonce: 0,
    };
    let header = BlockHeader::new(1, [0u8; 32], 1000, [0u8; 32], [2u8; 32], 1);
    let block = Block::new(header, vec![tx]);
    assert_eq!(
        engine.validate_state_transitions(&state, &block).unwrap_err(),
        ConsensusError::InvalidStateTransition("insufficient balance: 10 < 100".to_string())
    );
}
