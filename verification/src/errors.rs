//! Consensus error taxonomy.
//!
//! Errors carry the message the caller reported them with; messages that
//! embed numbers or addresses are built by the constructors below, whose
//! contracts pin the exact text.

use vstd::prelude::*;

use crate::decimal::{dec_str, u64_to_dec};

verus! {

/// Everything that can go wrong in the consensus core.
#[derive(Debug, PartialEq, Eq)]
pub enum ConsensusError {
    /// A block violated a structural invariant.
    InvalidBlockStructure(String),
    /// A signature was malformed or failed verification.
    InvalidSignature(String),
    /// A block carried fewer signatures than the finality threshold.
    InsufficientSignatures { required: u64, actual: u64 },
    /// A signer with no known public key.
    InvalidValidator(String),
    /// A signer outside the validator set.
    ValidatorNotInSet(String),
    /// A threshold at or below two thirds of the total voting power.
    InvalidThreshold,
    /// A transaction that cannot apply to the current state.
    InvalidStateTransition(String),
    /// Reserved for cross-block checks.
    BlockValidationFailed(String),
    /// Reserved for cross-block checks.
    FinalityViolation(String),
    /// A validator set with no members.
    EmptyValidatorSet,
    /// Two validators sharing one address.
    DuplicateValidator,
    /// A key-loading failure.
    CryptoError(String),
    /// Public key bytes that do not decode to a key.
    InvalidPublicKey,
    /// An encoding failure.
    SerializationError(String),
    /// A policy violation, such as a non-proposer proposing.
    Internal(String),
}

/// Message reported when a transaction names an account the state lacks.
pub open spec fn account_not_found_msg(addr: Seq<char>) -> Seq<char> {
    "account not found: "@ + addr
}

/// Message reported when a transaction's nonce is not the account's nonce.
pub open spec fn nonce_mismatch_msg(expected: u64, got: u64) -> Seq<char> {
    "nonce mismatch: expected "@ + dec_str(expected as nat) + ", got "@ + dec_str(got as nat)
}

/// Message reported when a sender's balance is below the amount moved.
pub open spec fn insufficient_balance_msg(have: u64, need: u64) -> Seq<char> {
    "insufficient balance: "@ + dec_str(have as nat) + " < "@ + dec_str(need as nat)
}

/// Builds the state-transition error for a missing account.
pub fn account_not_found_error(addr: &str) -> (e: ConsensusError)
    ensures
        e matches ConsensusError::InvalidStateTransition(m) && m@ == account_not_found_msg(addr@),
{
    let mut s = String::from_str("account not found: ");
    s.append(addr);
    ConsensusError::InvalidStateTransition(s)
}

/// Builds the state-transition error for a nonce mismatch.
pub fn nonce_mismatch_error(expected: u64, got: u64) -> (e: ConsensusError)
    ensures
        e matches ConsensusError::InvalidStateTransition(m) && m@ == nonce_mismatch_msg(
            expected,
            got,
        ),
{
    let mut s = String::from_str("nonce mismatch: expected ");
    let exp = u64_to_dec(expected);
    s.append(exp.as_str());
    s.append(", got ");
    let g = u64_to_dec(got);
    s.append(g.as_str());
    proof {
        assert(s@ =~= nonce_mismatch_msg(expected, got));
    }
    ConsensusError::InvalidStateTransition(s)
}

/// Builds the state-transition error for an insufficient balance.
pub fn insufficient_balance_error(have: u64, need: u64) -> (e: ConsensusError)
    ensures
        e matches ConsensusError::InvalidStateTransition(m) && m@ == insufficient_balance_msg(
            have,
            need,
        ),
{
    let mut s = String::from_str("insufficient balance: ");
    let h = u64_to_dec(have);
    s.append(h.as_str());
    s.append(" < ");
    let n = u64_to_dec(need);
    s.append(n.as_str());
    proof {
        assert(s@ =~= insufficient_balance_msg(have, need));
    }
    ConsensusError::InvalidStateTransition(s)
}

} // verus!
