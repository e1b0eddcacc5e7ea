use oso_consensus::{ConsensusError, State, Transaction};

#[test]
fn test_state_creation() {
    let state = State::new();
    assert_eq!(state.block_height, 0);
    assert_eq!(state.account_count(), 0);
}

#[test]
fn test_account_creation() {
    let mut state = State::new();
    let account = state.get_or_create_account("alice");
    assert_eq!(account.address, "alice");
    assert_eq!(account.ase_balance, 0);
}

#[test]
fn test_transfer() {
    let mut state = State::new();
    state.update_balance("alice", 1000).unwrap();

    let result = state.transfer("alice", "bob", 100);
    assert!(result.is_ok());

    assert_eq!(state.get_account("alice").unwrap().ase_balance, 900);
    assert_eq!(state.get_account("bob").unwrap().ase_balance, 100);
}

#[test]
fn test_transfer_insufficient_balance() {
    let mut state = State::new();
    state.update_balance("alice", 50).unwrap();

    let result = state.transfer("alice", "bob", 100);
    assert!(result.is_err());
}

#[test]
fn test_block_height_increment() {
    let mut state = State::new();
    assert_eq!(state.block_height(), 0);

    state.commit_block([1u8; 32]).unwrap();
    assert_eq!(state.block_height(), 1);

    state.commit_block([2u8; 32]).unwrap();
    assert_eq!(state.block_height(), 2);
}

#[test]
fn commit_records_history_and_root() {
    let mut state = State::new();
    state.update_balance("alice", 7).unwrap();
    assert_eq!(state.root_hash(), [0u8; 32]);
    state.commit_block([9u8; 32]).unwrap();
    assert_eq!(state.block_height, 1);
    assert_eq!(state.block_history.len(), 1);
    assert_eq!(state.block_history[0], [9u8; 32]);
    // the root is recomputed over the accounts; it is no longer all zeros
    assert_ne!(state.root_hash(), [0u8; 32]);
}

#[test]
fn nonce_mismatch_message() {
    let mut state = State::new();
    state.update_balance("alice", 1000).unwrap();
    let tx = Transaction::Transfer {
        from: "alice".to_string(),
        to: "bob".to_string(),
        amount: 100,
        nonce: 5,
    };
    assert_eq!(
        state.validate_transaction(&tx).unwrap_err(),
        ConsensusError::InvalidStateTransition("nonce mismatch: expected 0, got 5".to_string())
    );
}

#[test]
fn insufficient_balance_message() {
    let mut state = State::new();
    state.update_balance("alice", 50).unwrap();
    let tx = Transaction::Transfer {
        from: "alice".to_string(),
        to: "bob".to_string(),
        amount: 100,
        nonce: 0,
    };
    assert_eq!(
        state.validate_transaction(&tx).unwrap_err(),
        ConsensusError::InvalidStateTransition("insufficient balance: 50 < 100".to_string())
    );
}

#[test]
fn missing_account_message() {
    let state = State::new();
    let tx = Transaction::Transfer {
        from: "ghost".to_string(),
        to: "bob".to_string(),
        amount: 1,
        nonce: 0,
    };
    assert_eq!(
        state.validate_transaction(&tx).unwrap_err(),
        ConsensusError::InvalidStateTransition("account not found: ghost".to_string())
    );
}

#[test]
fn empty_recipient_is_rejected_by_validation() {
    let mut state = State::new();
    state.update_balance("alice", 1000).unwrap();
    let tx = Transaction::Transfer {
        from: "alice".to_string(),
        to: "".to_string(),
        amount: 100,
        nonce: 0,
    };
    assert_eq!(
        state.validate_transaction(&tx).unwrap_err(),
        ConsensusError::InvalidStateTransition("recipient cannot be empty".to_string())
    );
}

#[test]
fn deploy_validation_checks_sender_and_nonce() {
    let mut state = State::new();
    let tx = Transaction::TechGnosDeploy {
        bytecode: vec![1],
        sender: "carol".to_string(),
        gas: 10,
        nonce: 0,
    };
    assert_eq!(
        state.validate_transaction(&tx).unwrap_err(),
        ConsensusError::InvalidStateTransition("account not found: carol".to_string())
    );
    state.update_balance("carol", 0).unwrap();
    assert!(state.validate_transaction(&tx).is_ok());
    let tx = Transaction::TechGnosDeploy {
        bytecode: vec![1],
        sender: "carol".to_string(),
        gas: 10,
        nonce: 3,
    };
    assert_eq!(
        state.validate_transaction(&tx).unwrap_err(),
        ConsensusError::InvalidStateTransition("nonce mismatch: expected 0, got 3".to_string())
    );
}

#[test]
fn governance_is_accepted_without_account() {
    let state = State::new();
    let tx = Transaction::Governance {
        proposal_id: "p1".to_string(),
        action: vec![],
        proposer: "dana".to_string(),
        nonce: 9,
    };
    assert!(state.validate_transaction(&tx).is_ok());
}

#[test]
fn transfer_touches_only_the_two_accounts() {
    let mut state = State::new();
    state.update_balance("alice", 1000).unwrap();
    state.update_balance("bob", 500).unwrap();
    state.update_balance("carol", 77).unwrap();
    state.transfer("alice", "bob", 200).unwrap();
    assert_eq!(state.get_account("alice").unwrap().ase_balance, 800);
    assert_eq!(state.get_account("bob").unwrap().ase_balance, 700);
    assert_eq!(state.get_account("carol").unwrap().ase_balance, 77);
    assert_eq!(state.account_count(), 3);
}

#[test]
fn deploy_contract_sets_code() {
    let mut state = State::new();
    state.deploy_contract("c1", vec![0xde, 0xad]).unwrap();
    let acct = state.get_account("c1").unwrap();
    assert!(acct.is_contract());
    assert_eq!(acct.code.as_ref().unwrap(), &vec![0xde, 0xad]);
    assert!(!state.get_or_create_account("plain").is_contract());
}

#[test]
fn identical_accounts_give_identical_roots() {
    // two states that hold the same accounts, created in different orders,
    // commit to the same root
    let mut a = State::new();
    a.update_balance("zeta", 5).unwrap();
    a.update_balance("alpha", 3).unwrap();
    let mut b = State::new();
    b.update_balance("alpha", 3).unwrap();
    b.update_balance("zeta", 5).unwrap();
    a.commit_block([0u8; 32]).unwrap();
    b.commit_block([0u8; 32]).unwrap();
    assert_eq!(a.root_hash(), b.root_hash());
}

#[test]
fn transfer_from_missing_sender_fails() {
    // a missing sender always fails, even for a zero amount, and creates
    // no account
    let mut state = State::new();
    assert_eq!(
        state.transfer("ghost", "bob", 0).unwrap_err(),
        ConsensusError::InvalidStateTransition("account not found: ghost".to_string())
    );
    assert_eq!(
        state.transfer("ghost", "bob", 5).unwrap_err(),
        ConsensusError::InvalidStateTransition("account not found: ghost".to_string())
    );
    assert_eq!(state.account_count(), 0);
    assert!(state.get_account("ghost").is_none());
    assert!(state.get_account("bob").is_none());
}
