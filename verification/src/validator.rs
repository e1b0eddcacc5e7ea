//! Validators and the validator set.
//!
//! A validator set is immutable once constructed; its constructor enforces
//! the Byzantine fault-tolerance bound: the finality threshold strictly
//! exceeds two thirds of the total voting power.

use vstd::prelude::*;

use crate::errors::ConsensusError;

verus! {

/// A single validator: an address, an Ed25519 public key, and voting power.
#[derive(Clone, Debug, Eq, PartialEq)]
pub struct Validator {
    /// Validator address, unique within a set.
    pub address: String,
    /// Ed25519 public key bytes.
    pub public_key: [u8; 32],
    /// Voting power; one unless a weighted set is built.
    pub voting_power: u64,
}

impl Validator {
    /// A validator with the default voting power of one.
    pub fn new(address: String, public_key: [u8; 32]) -> (v: Validator)
        ensures
            v.address == address,
            v.public_key == public_key,
            v.voting_power == 1,
    {
        Validator { address, public_key, voting_power: 1 }
    }

    /// A validator with explicit voting power.
    pub fn with_voting_power(address: String, public_key: [u8; 32], voting_power: u64) -> (v:
        Validator)
        ensures
            v.address == address,
            v.public_key == public_key,
            v.voting_power == voting_power,
    {
        Validator { address, public_key, voting_power }
    }
}

/// The combined voting power of a list of validators.
pub open spec fn total_power(vals: Seq<Validator>) -> int
    decreases vals.len(),
{
    if vals.len() == 0 {
        0
    } else {
        total_power(vals.drop_last()) + vals.last().voting_power
    }
}

/// No two validators share an address.
pub open spec fn distinct_addresses(vals: Seq<Validator>) -> bool {
    forall|i: int, j: int| 0 <= i < j < vals.len() ==> vals[i].address@ != vals[j].address@
}

/// Dropping validators never raises the total power.
proof fn lemma_total_power_prefix(vals: Seq<Validator>, n: int)
    requires
        0 <= n <= vals.len(),
    ensures
        total_power(vals.subrange(0, n)) <= total_power(vals),
        total_power(vals.subrange(0, n)) >= 0,
    decreases vals.len(),
{
    if vals.len() == 0 {
        assert(vals.subrange(0, n) =~= vals);
    } else if n == vals.len() {
        assert(vals.subrange(0, n) =~= vals);
        lemma_total_power_prefix(vals.drop_last(), n - 1);
    } else {
        lemma_total_power_prefix(vals.drop_last(), n);
        assert(vals.subrange(0, n) =~= vals.drop_last().subrange(0, n));
    }
}

/// Set of validators with a finality threshold.
#[derive(Clone, Debug)]
pub struct ValidatorSet {
    validators: Vec<Validator>,
    threshold: u64,
}

impl ValidatorSet {
    /// The validators, in construction order.
    pub closed spec fn spec_validators(self) -> Seq<Validator> {
        self.validators@
    }

    /// The finality threshold.
    pub closed spec fn spec_threshold(self) -> u64 {
        self.threshold
    }

    /// The combined voting power of the set.
    pub open spec fn spec_total_power(self) -> int {
        total_power(self.spec_validators())
    }

    /// Whether some validator in the set has this address.
    pub open spec fn contains_addr(self, a: Seq<char>) -> bool {
        exists|i: int|
            0 <= i < self.spec_validators().len() && #[trigger] self.spec_validators()[i].address@
                == a
    }

    /// What the constructor guarantees: a non-empty set of distinct
    /// addresses, a total power that fits a 64-bit integer, and a threshold
    /// strictly above two thirds of it.
    pub open spec fn wf(self) -> bool {
        &&& self.spec_validators().len() > 0
        &&& distinct_addresses(self.spec_validators())
        &&& total_power(self.spec_validators()) <= u64::MAX
        &&& 3 * self.spec_threshold() > 2 * total_power(self.spec_validators())
    }

    /// Builds a validator set, rejecting an empty list, duplicate addresses,
    /// and any threshold at or below two thirds of the total voting power.
    pub fn new(validators: Vec<Validator>, custom_threshold: u64) -> (r: Result<
        ValidatorSet,
        ConsensusError,
    >)
        requires
            total_power(validators@) <= u64::MAX,
        ensures
            validators@.len() == 0 ==> r == Err::<ValidatorSet, ConsensusError>(
                ConsensusError::EmptyValidatorSet,
            ),
            validators@.len() > 0 && !distinct_addresses(validators@) ==> r == Err::<
                ValidatorSet,
                ConsensusError,
            >(ConsensusError::DuplicateValidator),
            validators@.len() > 0 && distinct_addresses(validators@) && 3 * custom_threshold <= 2
                * total_power(validators@) ==> r == Err::<ValidatorSet, ConsensusError>(
                ConsensusError::InvalidThreshold,
            ),
            r matches Ok(vs) ==> {
                &&& validators@.len() > 0
                &&& distinct_addresses(validators@)
                &&& 3 * custom_threshold > 2 * total_power(validators@)
                &&& vs.spec_validators() == validators@
                &&& vs.spec_threshold() == custom_threshold
                &&& vs.wf()
            },
            r is Ok <==> validators@.len() > 0 && distinct_addresses(validators@) && 3
                * custom_threshold > 2 * total_power(validators@),
    {
        if validators.len() == 0 {
            return Err(ConsensusError::EmptyValidatorSet);
        }
        let n = validators.len();
        let mut i: usize = 0;
        while i < n
            invariant
                n == validators@.len(),
                i <= n,
                forall|p: int, q: int|
                    0 <= p < q < validators@.len() && p < i ==> validators@[p].address@
                        != validators@[q].address@,
            decreases n - i,
        {
            let mut j: usize = i + 1;
            while j < n
                invariant
                    n == validators@.len(),
                    i < j <= n,
                    forall|q: int|
                        i < q < j ==> validators@[i as int].address@ != #[trigger] validators@[q].address@,
                decreases n - j,
            {
                if validators[i].address.eq(&validators[j].address) {
                    return Err(ConsensusError::DuplicateValidator);
                }
                j = j + 1;
            }
            i = i + 1;
        }
        let mut total: u64 = 0;
        let mut k: usize = 0;
        proof {
            assert(validators@.subrange(0, 0) =~= Seq::<Validator>::empty());
        }
        while k < n
            invariant
                n == validators@.len(),
                k <= n,
                total_power(validators@) <= u64::MAX,
                total == total_power(validators@.subrange(0, k as int)),
            decreases n - k,
        {
            proof {
                lemma_total_power_prefix(validators@, k + 1);
                assert(validators@.subrange(0, k + 1).drop_last() =~= validators@.subrange(
                    0,
                    k as int,
                ));
                assert(validators@.subrange(0, k + 1).last() == validators@[k as int]);
            }
            total = total + validators[k].voting_power;
            k = k + 1;
        }
        proof {
            assert(validators@.subrange(0, n as int) =~= validators@);
        }
        let min_threshold: u128 = (total as u128) * 2 / 3 + 1;
        if (custom_threshold as u128) < min_threshold {
            proof {
                let p = total_power(validators@);
                let q = 2 * p / 3;
                vstd::arithmetic::div_mod::lemma_fundamental_div_mod(2 * p, 3);
                assert(3 * custom_threshold <= 2 * p);
            }
            return Err(ConsensusError::InvalidThreshold);
        }
        proof {
            let p = total_power(validators@);
            let q = 2 * p / 3;
            vstd::arithmetic::div_mod::lemma_fundamental_div_mod(2 * p, 3);
            assert(3 * custom_threshold > 2 * p);
        }
        Ok(ValidatorSet { validators, threshold: custom_threshold })
    }

    /// Builds the standard thirteen-member set with threshold nine.
    pub fn standard(validators: Vec<Validator>) -> (r: Result<ValidatorSet, ConsensusError>)
        requires
            total_power(validators@) <= u64::MAX,
        ensures
            validators@.len() != 13 ==> (r matches Err(e) && e matches ConsensusError::Internal(m)
                && m@ == "Standard validator set requires exactly 13 validators"@),
            validators@.len() == 13 && !distinct_addresses(validators@) ==> r == Err::<
                ValidatorSet,
                ConsensusError,
            >(ConsensusError::DuplicateValidator),
            validators@.len() == 13 && distinct_addresses(validators@) && 3 * 9 <= 2 * total_power(
                validators@,
            ) ==> r == Err::<ValidatorSet, ConsensusError>(ConsensusError::InvalidThreshold),
            r matches Ok(vs) ==> {
                &&& validators@.len() == 13
                &&& distinct_addresses(validators@)
                &&& vs.spec_validators() == validators@
                &&& vs.spec_threshold() == 9
                &&& vs.wf()
            },
            r is Ok <==> validators@.len() == 13 && distinct_addresses(validators@) && 27 > 2
                * total_power(validators@),
    {
        if validators.len() != 13 {
            return Err(
                ConsensusError::Internal(
                    String::from_str("Standard validator set requires exactly 13 validators"),
                ),
            );
        }
        Self::new(validators, 9)
    }

    /// The validators, in construction order.
    pub fn validators(&self) -> (r: &[Validator])
        ensures
            r@ == self.spec_validators(),
    {
        self.validators.as_slice()
    }

    /// Whether an address belongs to the set.
    pub fn contains_validator(&self, address: &str) -> (r: bool)
        ensures
            r == self.contains_addr(address@),
    {
        let key = address.to_owned();
        let n = self.validators.len();
        let mut i: usize = 0;
        while i < n
            invariant
                n == self.spec_validators().len(),
                i <= n,
                key@ == address@,
                forall|k: int|
                    0 <= k < i ==> #[trigger] self.spec_validators()[k].address@ != address@,
            decreases n - i,
        {
            if self.validators[i].address.eq(&key) {
                return true;
            }
            i = i + 1;
        }
        false
    }

    /// Looks an address up, returning its validator record if present.
    pub fn get_validator(&self, address: &str) -> (r: Option<&Validator>)
        ensures
            r is Some <==> self.contains_addr(address@),
            r matches Some(v) ==> v.address@ == address@ && exists|i: int|
                0 <= i < self.spec_validators().len() && #[trigger] self.spec_validators()[i]
                    == *v,
    {
        let key = address.to_owned();
        let n = self.validators.len();
        let mut i: usize = 0;
        while i < n
            invariant
                n == self.spec_validators().len(),
                i <= n,
                key@ == address@,
                forall|k: int|
                    0 <= k < i ==> #[trigger] self.spec_validators()[k].address@ != address@,
            decreases n - i,
        {
            if self.validators[i].address.eq(&key) {
                return Some(&self.validators[i]);
            }
            i = i + 1;
        }
        None
    }

    /// The number of signatures (by count) required for finality.
    pub fn threshold(&self) -> (r: u64)
        ensures
            r == self.spec_threshold(),
    {
        self.threshold
    }

    /// The combined voting power of the set.
    pub fn total_voting_power(&self) -> (r: u64)
        requires
            self.wf(),
        ensures
            r == self.spec_total_power(),
    {
        let n = self.validators.len();
        let mut total: u64 = 0;
        let mut k: usize = 0;
        proof {
            assert(self.spec_validators().subrange(0, 0) =~= Seq::<Validator>::empty());
        }
        while k < n
            invariant
                n == self.spec_validators().len(),
                k <= n,
                total_power(self.spec_validators()) <= u64::MAX,
                total == total_power(self.spec_validators().subrange(0, k as int)),
            decreases n - k,
        {
            proof {
                lemma_total_power_prefix(self.spec_validators(), k + 1);
                assert(self.spec_validators().subrange(0, k + 1).drop_last()
                    =~= self.spec_validators().subrange(0, k as int));
                assert(self.spec_validators().subrange(0, k + 1).last()
                    == self.spec_validators()[k as int]);
            }
            total = total + self.validators[k].voting_power;
            k = k + 1;
        }
        proof {
            assert(self.spec_validators().subrange(0, n as int) =~= self.spec_validators());
        }
        total
    }

    /// The number of validators.
    pub fn len(&self) -> (r: usize)
        ensures
            r == self.spec_validators().len(),
    {
        self.validators.len()
    }

    /// Whether the set is empty; never true for a constructed set.
    pub fn is_empty(&self) -> (r: bool)
        ensures
            r == (self.spec_validators().len() == 0),
    {
        self.validators.is_empty()
    }

    /// A value-equal copy whose contents Verus can track.
    pub fn duplicate(&self) -> (r: ValidatorSet)
        ensures
            r.spec_validators() == self.spec_validators(),
            r.spec_threshold() == self.spec_threshold(),
    {
        let n = self.validators.len();
        let mut vals: Vec<Validator> = Vec::new();
        let mut i: usize = 0;
        while i < n
            invariant
                n == self.spec_validators().len(),
                i <= n,
                vals@ == self.spec_validators().subrange(0, i as int),
            decreases n - i,
        {
            let v = Validator {
                address: self.validators[i].address.clone(),
                public_key: self.validators[i].public_key,
                voting_power: self.validators[i].voting_power,
            };
            vals.push(v);
            proof {
                assert(vals@ =~= self.spec_validators().subrange(0, i + 1));
            }
            i = i + 1;
        }
        proof {
            assert(vals@ =~= self.spec_validators());
        }
        ValidatorSet { validators: vals, threshold: self.threshold }
    }
}

impl Default for ValidatorSet {
    /// The standard council: twelve numbered members and one distinguished
    /// peer, with the standard threshold of nine.
    #[verifier::rlimit(50)]
    fn default() -> (r: ValidatorSet)
        ensures
            r.wf(),
            r.spec_validators().len() == 13,
            r.spec_threshold() == 9,
    {
        let mut vals: Vec<Validator> = Vec::new();
        vals.push(Validator::new(String::from_str("council_1"), [1u8; 32]));
        vals.push(Validator::new(String::from_str("council_2"), [2u8; 32]));
        vals.push(Validator::new(String::from_str("council_3"), [3u8; 32]));
        vals.push(Validator::new(String::from_str("council_4"), [4u8; 32]));
        vals.push(Validator::new(String::from_str("council_5"), [5u8; 32]));
        vals.push(Validator::new(String::from_str("council_6"), [6u8; 32]));
        vals.push(Validator::new(String::from_str("council_7"), [7u8; 32]));
        vals.push(Validator::new(String::from_str("council_8"), [8u8; 32]));
        vals.push(Validator::new(String::from_str("council_9"), [9u8; 32]));
        vals.push(Validator::new(String::from_str("council_10"), [10u8; 32]));
        vals.push(Validator::new(String::from_str("council_11"), [11u8; 32]));
        vals.push(Validator::new(String::from_str("council_12"), [12u8; 32]));
        vals.push(Validator::new(String::from_str("bino"), [13u8; 32]));
        proof {
            reveal_strlit("council_1");
            reveal_strlit("council_2");
            reveal_strlit("council_3");
            reveal_strlit("council_4");
            reveal_strlit("council_5");
            reveal_strlit("council_6");
            reveal_strlit("council_7");
            reveal_strlit("council_8");
            reveal_strlit("council_9");
            reveal_strlit("council_10");
            reveal_strlit("council_11");
            reveal_strlit("council_12");
            reveal_strlit("bino");
            assert("council_1"@.len() == 9 && "council_1"@[8] == '1');
            assert("council_2"@.len() == 9 && "council_2"@[8] == '2');
            assert("council_3"@.len() == 9 && "council_3"@[8] == '3');
            assert("council_4"@.len() == 9 && "council_4"@[8] == '4');
            assert("council_5"@.len() == 9 && "council_5"@[8] == '5');
            assert("council_6"@.len() == 9 && "council_6"@[8] == '6');
            assert("council_7"@.len() == 9 && "council_7"@[8] == '7');
            assert("council_8"@.len() == 9 && "council_8"@[8] == '8');
            assert("council_9"@.len() == 9 && "council_9"@[8] == '9');
            assert("council_10"@.len() == 10 && "council_10"@[9] == '0');
            assert("council_11"@.len() == 10 && "council_11"@[9] == '1');
            assert("council_12"@.len() == 10 && "council_12"@[9] == '2');
            assert("bino"@.len() == 4);
            assert(distinct_addresses(vals@));
            reveal_with_fuel(total_power, 15);
            assert(total_power(vals@) == 13);
        }
        match Self::standard(vals) {
            Ok(vs) => vs,
            Err(_) => vstd::pervasive::unreached(),
        }
    }
}

/// The BFT bound itself: every well-formed validator set has a threshold
/// strictly above two thirds of its total voting power.
pub proof fn lemma_threshold_exceeds_two_thirds(vs: &ValidatorSet)
    requires
        vs.wf(),
    ensures
        3 * vs.spec_threshold() > 2 * vs.spec_total_power(),
{
}

} // verus!
