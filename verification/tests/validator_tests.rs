use oso_consensus::{ConsensusError, Validator, ValidatorSet};

#[test]
fn test_validator_creation() {
    let validator = Validator::new("test".to_string(), [0u8; 32]);
    assert_eq!(validator.address, "test");
    assert_eq!(validator.voting_power, 1);
}

#[test]
fn validator_test_validator_set_standard() {
    let set = ValidatorSet::default();
    assert_eq!(set.len(), 13);
    assert_eq!(set.threshold(), 9);
}

#[test]
fn test_validator_set_contains() {
    let set = ValidatorSet::default();
    assert!(set.contains_validator("council_1"));
    assert!(set.contains_validator("bino"));
    assert!(!set.contains_validator("unknown"));
}

#[test]
fn test_validator_set_invalid_threshold() {
    let validators = vec![
        Validator::new("v1".to_string(), [1u8; 32]),
        Validator::new("v2".to_string(), [2u8; 32]),
    ];
    // Threshold must be > 2/3 of 2 = 1.33, so min 2
    let result = ValidatorSet::new(validators, 1);
    assert!(result.is_err());
}

#[test]
fn invalid_threshold_variant() {
    let validators = vec![
        Validator::new("v1".to_string(), [1u8; 32]),
        Validator::new("v2".to_string(), [2u8; 32]),
    ];
    assert_eq!(
        ValidatorSet::new(validators, 1).unwrap_err(),
        ConsensusError::InvalidThreshold
    );
}

#[test]
fn empty_set_is_rejected() {
    assert_eq!(
        ValidatorSet::new(vec![], 1).unwrap_err(),
        ConsensusError::EmptyValidatorSet
    );
}

#[test]
fn duplicate_address_is_rejected() {
    let validators = vec![
        Validator::new("v1".to_string(), [1u8; 32]),
        Validator::new("v1".to_string(), [2u8; 32]),
    ];
    assert_eq!(
        ValidatorSet::new(validators, 2).unwrap_err(),
        ConsensusError::DuplicateValidator
    );
}

#[test]
fn threshold_strictly_above_two_thirds() {
    // with three validators of power one, 2 is not above 2/3 of 3; 3 is
    let mk = || {
        vec![
            Validator::new("v1".to_string(), [1u8; 32]),
            Validator::new("v2".to_string(), [2u8; 32]),
            Validator::new("v3".to_string(), [3u8; 32]),
        ]
    };
    assert_eq!(
        ValidatorSet::new(mk(), 2).unwrap_err(),
        ConsensusError::InvalidThreshold
    );
    let set = ValidatorSet::new(mk(), 3).unwrap();
    assert_eq!(set.threshold(), 3);
    assert_eq!(set.total_voting_power(), 3);
    assert!(3 * set.threshold() > 2 * set.total_voting_power());
}

#[test]
fn weighted_power_counts() {
    let validators = vec![
        Validator::with_voting_power("v1".to_string(), [1u8; 32], 5),
        Validator::with_voting_power("v2".to_string(), [2u8; 32], 1),
    ];
    // total power 6, threshold must exceed 4
    assert_eq!(
        ValidatorSet::new(validators, 4).unwrap_err(),
        ConsensusError::InvalidThreshold
    );
    let validators = vec![
        Validator::with_voting_power("v1".to_string(), [1u8; 32], 5),
        Validator::with_voting_power("v2".to_string(), [2u8; 32], 1),
    ];
    let set = ValidatorSet::new(validators, 5).unwrap();
    assert_eq!(set.total_voting_power(), 6);
}

#[test]
fn get_validator_finds_records() {
    let set = ValidatorSet::default();
    let v = set.get_validator("council_3").unwrap();
    assert_eq!(v.address, "council_3");
    assert_eq!(v.public_key, [3u8; 32]);
    assert!(set.get_validator("nobody").is_none());
    assert!(!set.is_empty());
    assert_eq!(set.validators().len(), 13);
}
