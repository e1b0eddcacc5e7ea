use ed25519_dalek::{Signer, SigningKey};
use oso_consensus::{
    Block, BlockHeader, ConsensusError, Ed25519Verifier, Transaction, Validator, ValidatorSet,
};
use sha2::{Digest, Sha256};

#[test]
fn test_hash_consistency() {
    let data = b"test data";
    let hash1 = {
        let mut hasher = Sha256::new();
        hasher.update(data);
        hasher.finalize().to_vec()
    };

    let hash2 = {
        let mut hasher = Sha256::new();
        hasher.update(data);
        hasher.finalize().to_vec()
    };

    assert_eq!(hash1, hash2);
}

fn sample_header() -> BlockHeader {
    BlockHeader::new(1, [0u8; 32], 1000, [1u8; 32], [2u8; 32], 7)
}

#[test]
fn header_hash_is_a_digest() {
    // a digest, not the encoded header: 32 bytes, and sensitive to each field
    let h1 = Ed25519Verifier::hash_block_header(&sample_header());
    assert_eq!(h1.len(), 32);
    let mut changed = sample_header();
    changed.timestamp = 1001;
    assert_ne!(h1, Ed25519Verifier::hash_block_header(&changed));
    // signatures are excluded from the hash
    let mut signed = sample_header();
    signed.add_signature("v1".to_string(), vec![0; 64]);
    assert_eq!(h1, Ed25519Verifier::hash_block_header(&signed));
}

#[test]
fn transaction_hashes_differ_by_content() {
    let tx1 = Transaction::Transfer {
        from: "alice".to_string(),
        to: "bob".to_string(),
        amount: 100,
        nonce: 0,
    };
    let tx2 = Transaction::Transfer {
        from: "alice".to_string(),
        to: "bob".to_string(),
        amount: 101,
        nonce: 0,
    };
    let h1 = Ed25519Verifier::hash_transaction(&tx1);
    let h2 = Ed25519Verifier::hash_transaction(&tx2);
    assert_eq!(h1.len(), 32);
    assert_ne!(h1, h2);
}

#[test]
fn transaction_chain_hash_depends_on_order() {
    let tx1 = Transaction::Transfer {
        from: "alice".to_string(),
        to: "bob".to_string(),
        amount: 100,
        nonce: 0,
    };
    let tx2 = Transaction::Transfer {
        from: "bob".to_string(),
        to: "alice".to_string(),
        amount: 5,
        nonce: 0,
    };
    let a = Ed25519Verifier::hash_transactions(&[tx1.clone(), tx2.clone()]);
    let b = Ed25519Verifier::hash_transactions(&[tx2, tx1]);
    assert_ne!(a, b);
    // the empty list hashes to the digest of the empty string
    let empty = Ed25519Verifier::hash_transactions(&[]);
    let expected: Vec<u8> = Sha256::digest(b"").to_vec();
    assert_eq!(empty.to_vec(), expected);
}

#[test]
fn load_pubkey_rejects_bad_keys() {
    let mut crypto = Ed25519Verifier::new();
    assert_eq!(
        crypto.load_pubkey("v1".to_string(), &[0u8; 31]).unwrap_err(),
        ConsensusError::InvalidPublicKey
    );
    let sk = SigningKey::from_bytes(&[7u8; 32]);
    assert!(crypto
        .load_pubkey("v1".to_string(), &sk.verifying_key().to_bytes())
        .is_ok());
}

#[test]
fn signed_header_verifies_and_tampering_fails() {
    let sk = SigningKey::from_bytes(&[7u8; 32]);
    let pk = sk.verifying_key().to_bytes();
    let mut crypto = Ed25519Verifier::new();
    crypto.load_pubkey("v1".to_string(), &pk).unwrap();

    let header = sample_header();
    let message = Ed25519Verifier::hash_block_header(&header);
    let sig = sk.sign(&message).to_bytes();
    assert!(crypto.verify_signature("v1", &message, &sig).is_ok());

    // altering any header field changes the hash and breaks the signature
    let mut altered = sample_header();
    altered.block_num = 2;
    let altered_msg = Ed25519Verifier::hash_block_header(&altered);
    assert_eq!(
        crypto.verify_signature("v1", &altered_msg, &sig).unwrap_err(),
        ConsensusError::InvalidSignature("signature verification failed".to_string())
    );
}

#[test]
fn unknown_signer_and_malformed_signature() {
    let crypto = Ed25519Verifier::new();
    assert_eq!(
        crypto.verify_signature("ghost", b"msg", &[0u8; 64]).unwrap_err(),
        ConsensusError::InvalidValidator("ghost".to_string())
    );
    let sk = SigningKey::from_bytes(&[7u8; 32]);
    let mut crypto = Ed25519Verifier::new();
    crypto
        .load_pubkey("v1".to_string(), &sk.verifying_key().to_bytes())
        .unwrap();
    assert_eq!(
        crypto.verify_signature("v1", b"msg", &[0u8; 63]).unwrap_err(),
        ConsensusError::InvalidSignature("malformed signature".to_string())
    );
}

#[test]
fn insufficient_signatures_is_reported() {
    let validators = vec![
        Validator::new("v1".to_string(), [1u8; 32]),
        Validator::new("v2".to_string(), [2u8; 32]),
    ];
    let set = ValidatorSet::new(validators, 2).unwrap();
    let crypto = Ed25519Verifier::new();
    let mut header = sample_header();
    header.add_signature("v1".to_string(), vec![0; 64]);
    let tx = Transaction::Transfer {
        from: "alice".to_string(),
        to: "bob".to_string(),
        amount: 100,
        nonce: 0,
    };
    let block = Block::new(header, vec![tx]);
    assert_eq!(
        crypto.verify_block_signatures(&block, &set).unwrap_err(),
        ConsensusError::InsufficientSignatures { required: 2, actual: 1 }
    );
}

#[test]
fn full_quorum_of_real_signatures_verifies() {
    let sk1 = SigningKey::from_bytes(&[1u8; 32]);
    let sk2 = SigningKey::from_bytes(&[2u8; 32]);
    let validators = vec![
        Validator::new("v1".to_string(), sk1.verifying_key().to_bytes()),
        Validator::new("v2".to_string(), sk2.verifying_key().to_bytes()),
    ];
    let set = ValidatorSet::new(validators, 2).unwrap();
    let mut crypto = Ed25519Verifier::new();
    crypto.load_pubkey("v1".to_string(), &sk1.verifying_key().to_bytes()).unwrap();
    crypto.load_pubkey("v2".to_string(), &sk2.verifying_key().to_bytes()).unwrap();

    let mut header = sample_header();
    let message = Ed25519Verifier::hash_block_header(&header);
    header.add_signature("v1".to_string(), sk1.sign(&message).to_bytes().to_vec());
    header.add_signature("v2".to_string(), sk2.sign(&message).to_bytes().to_vec());
    let tx = Transaction::Transfer {
        from: "alice".to_string(),
        to: "bob".to_string(),
        amount: 100,
        nonce: 0,
    };
    let block = Block::new(header, vec![tx]);
    assert!(crypto.verify_block_signatures(&block, &set).is_ok());

    // a signer outside the set is turned away even with enough signatures
    let mut header = sample_header();
    header.add_signature("v1".to_string(), sk1.sign(&message).to_bytes().to_vec());
    header.add_signature("intruder".to_string(), sk2.sign(&message).to_bytes().to_vec());
    let tx = Transaction::Transfer {
        from: "alice".to_string(),
        to: "bob".to_string(),
        amount: 100,
        nonce: 0,
    };
    let block = Block::new(header, vec![tx]);
    assert_eq!(
        crypto.verify_block_signatures(&block, &set).unwrap_err(),
        ConsensusError::ValidatorNotInSet("intruder".to_string())
    );
}
