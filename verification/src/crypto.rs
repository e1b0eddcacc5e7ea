//! Hashing and signature verification.
//!
//! SHA-256 digests and Ed25519 verification come from outside crates; the
//! wrappers below state what those calls return, and everything built on top
//! of them is verified. A digest or a verification outcome is a function of
//! its input bytes alone, so each gets a name that the contracts share.

use vstd::prelude::*;

use ed25519_dalek::Verifier;
use sha2::Digest;

use crate::block::{Block, BlockHeader, Transaction};
use crate::codec::{encode_header, encode_transaction, header_bytes, tx_encoding};
use crate::errors::ConsensusError;
use crate::validator::ValidatorSet;

verus! {

/// The SHA-256 digest of a byte string.
pub uninterp spec fn sha256_of(bytes: Seq<u8>) -> Seq<u8>;

/// Whether 32 bytes decode to an Ed25519 public key.
pub uninterp spec fn ed25519_valid_pubkey(key: Seq<u8>) -> bool;

/// Whether an Ed25519 signature verifies under a key over a message.
pub uninterp spec fn ed25519_verifies(key: Seq<u8>, msg: Seq<u8>, sig: Seq<u8>) -> bool;

/// Relies on sha2::Sha256 (digest 32 bytes long, a function of the input
/// bytes alone).
#[verifier::external_body]
pub(crate) fn sha256(bytes: &[u8]) -> (r: [u8; 32])
    ensures
        r@ == sha256_of(bytes@),
{
    let d = sha2::Sha256::digest(bytes);
    let mut out = [0u8; 32];
    out.copy_from_slice(d.as_ref());
    out
}

/// Relies on ed25519_dalek::VerifyingKey::from_bytes: whether the bytes
/// decompress to a curve point depends on the bytes alone; only 32-byte
/// inputs can decode.
#[verifier::external_body]
fn ed25519_pubkey_ok(bytes: &[u8]) -> (r: bool)
    ensures
        r == (bytes@.len() == 32 && ed25519_valid_pubkey(bytes@)),
{
    match <&[u8; 32]>::try_from(bytes) {
        Ok(arr) => ed25519_dalek::VerifyingKey::from_bytes(arr).is_ok(),
        Err(_) => false,
    }
}

/// Relies on ed25519_dalek::VerifyingKey::verify (with Signature::from_slice,
/// which accepts exactly 64 bytes): the outcome depends on the key, message
/// and signature bytes alone.
#[verifier::external_body]
fn ed25519_verify(key: &[u8], msg: &[u8], sig: &[u8]) -> (r: bool)
    requires
        key@.len() == 32,
        ed25519_valid_pubkey(key@),
        sig@.len() == 64,
    ensures
        r == ed25519_verifies(key@, msg@, sig@),
{
    let arr = match <&[u8; 32]>::try_from(key) {
        Ok(a) => a,
        Err(_) => return false,
    };
    let vk = match ed25519_dalek::VerifyingKey::from_bytes(arr) {
        Ok(k) => k,
        Err(_) => return false,
    };
    let s = match ed25519_dalek::Signature::from_slice(sig) {
        Ok(s) => s,
        Err(_) => return false,
    };
    vk.verify(msg, &s).is_ok()
}

/// The hash of one transaction: SHA-256 over its canonical encoding.
pub open spec fn spec_hash_transaction(tx: Transaction) -> Seq<u8> {
    sha256_of(tx_encoding(tx))
}

/// The chained hash of a transaction list: the hash of the first transaction
/// hash, then each later transaction hash folded in on the right. An empty
/// list hashes to the digest of the empty string.
pub open spec fn tx_chain_hash(txs: Seq<Transaction>) -> Seq<u8>
    decreases txs.len(),
{
    if txs.len() == 0 {
        sha256_of(Seq::empty())
    } else if txs.len() == 1 {
        sha256_of(spec_hash_transaction(txs[0]))
    } else {
        sha256_of(tx_chain_hash(txs.drop_last()) + spec_hash_transaction(txs.last()))
    }
}

/// The hash a block's signers sign: SHA-256 over the header bytes.
pub open spec fn spec_header_hash(h: BlockHeader) -> Seq<u8> {
    sha256_of(header_bytes(h))
}

/// Why one signature entry fails verification, if it does.
pub enum SigFailure {
    /// The address is not in the validator set.
    NotInSet(Seq<char>),
    /// The address has no cached public key.
    UnknownKey(Seq<char>),
    /// The signature is not 64 bytes.
    Malformed(Seq<char>),
    /// Ed25519 verification failed.
    BadSignature(Seq<char>),
}

/// Ed25519 signature verifier with a per-validator public-key cache.
#[derive(Clone, Debug)]
pub struct Ed25519Verifier {
    pubkey_cache: Vec<(String, Vec<u8>)>,
}

impl Ed25519Verifier {
    /// The cached (address, key bytes) entries, in load order.
    pub closed spec fn cache_entries(self) -> Seq<(String, Vec<u8>)> {
        self.pubkey_cache@
    }

    /// Whether a key is cached for this address.
    pub open spec fn has_pubkey(self, a: Seq<char>) -> bool {
        exists|i: int|
            0 <= i < self.cache_entries().len() && #[trigger] self.cache_entries()[i].0@ == a
    }

    /// The cached key bytes for an address.
    pub open spec fn pubkey_of(self, a: Seq<char>) -> Seq<u8> {
        self.cache_entries()[choose|i: int|
            0 <= i < self.cache_entries().len() && #[trigger] self.cache_entries()[i].0@ == a].1@
    }

    /// Cache well-formedness: one entry per address, and every cached key is
    /// 32 bytes that decode to an Ed25519 key.
    pub open spec fn wf(self) -> bool {
        &&& forall|i: int, j: int|
            0 <= i < j < self.cache_entries().len() ==> self.cache_entries()[i].0@
                != self.cache_entries()[j].0@
        &&& forall|i: int|
            0 <= i < self.cache_entries().len() ==> (#[trigger] self.cache_entries()[i].1@).len()
                == 32 && ed25519_valid_pubkey(self.cache_entries()[i].1@)
    }

    /// Each cache entry is the one its address resolves to.
    proof fn lemma_cache_entry(self, i: int)
        requires
            self.wf(),
            0 <= i < self.cache_entries().len(),
        ensures
            self.has_pubkey(self.cache_entries()[i].0@),
            self.pubkey_of(self.cache_entries()[i].0@) == self.cache_entries()[i].1@,
    {
        let a = self.cache_entries()[i].0@;
        assert(self.has_pubkey(a));
        let j = choose|j: int|
            0 <= j < self.cache_entries().len() && #[trigger] self.cache_entries()[j].0@ == a;
        if i < j {
            assert(self.cache_entries()[i].0@ != self.cache_entries()[j].0@);
        } else if j < i {
            assert(self.cache_entries()[j].0@ != self.cache_entries()[i].0@);
        }
    }

    /// An empty verifier: no keys loaded yet.
    pub fn new() -> (r: Ed25519Verifier)
        ensures
            r.cache_entries() == Seq::<(String, Vec<u8>)>::empty(),
            r.wf(),
    {
        Ed25519Verifier { pubkey_cache: Vec::new() }
    }

    /// Loads a validator's public key, replacing any earlier key for the
    /// same address. Rejects byte strings that are not a valid 32-byte key.
    pub fn load_pubkey(&mut self, address: String, pubkey_bytes: &[u8]) -> (r: Result<
        (),
        ConsensusError,
    >)
        requires
            old(self).wf(),
        ensures
            final(self).wf(),
            r is Ok <==> pubkey_bytes@.len() == 32 && ed25519_valid_pubkey(pubkey_bytes@),
            r matches Err(e) ==> e == ConsensusError::InvalidPublicKey && *final(self) == *old(
                self,
            ),
            r is Ok ==> {
                &&& final(self).has_pubkey(address@)
                &&& final(self).pubkey_of(address@) == pubkey_bytes@
                &&& forall|a: Seq<char>|
                    a != address@ ==> (final(self).has_pubkey(a) == old(self).has_pubkey(a) && (
                    old(self).has_pubkey(a) ==> final(self).pubkey_of(a) == old(self).pubkey_of(
                        a,
                    )))
            },
    {
        if pubkey_bytes.len() != 32 {
            return Err(ConsensusError::InvalidPublicKey);
        }
        if !ed25519_pubkey_ok(pubkey_bytes) {
            return Err(ConsensusError::InvalidPublicKey);
        }
        let mut key_copy: Vec<u8> = Vec::new();
        crate::codec::push_bytes(&mut key_copy, pubkey_bytes);
        let ghost entries = self.pubkey_cache@;
        let ghost entry: (String, Vec<u8>) = (address, key_copy);
        let key = address.as_str().to_owned();
        let n = self.pubkey_cache.len();
        let mut i: usize = 0;
        while i < n
            invariant
                n == entries.len(),
                i <= n,
                entries == old(self).pubkey_cache@,
                self.pubkey_cache@ == entries,
                key@ == address@,
                entry == (address, key_copy),
                entry.0@ == address@,
                entry.1@ == pubkey_bytes@,
                pubkey_bytes@.len() == 32,
                ed25519_valid_pubkey(pubkey_bytes@),
                old(self).wf(),
                forall|k: int| 0 <= k < i ==> #[trigger] entries[k].0@ != address@,
            decreases n - i,
        {
            if self.pubkey_cache[i].0.eq(&key) {
                self.pubkey_cache[i] = (address, key_copy);
                proof {
                    assert(self.pubkey_cache@ =~= entries.update(i as int, entry));
                    assert(old(self).cache_entries() == entries);
                    assert forall|p: int, q: int|
                        0 <= p < q < self.pubkey_cache@.len() implies self.pubkey_cache@[p].0@
                        != self.pubkey_cache@[q].0@ by {
                        assert(old(self).cache_entries()[p].0@ != old(self).cache_entries()[q].0@);
                        if p != i && q != i {
                            assert(entries[p].0@ != entries[q].0@);
                        } else {
                            assert(entries[i as int].0@ == address@);
                        }
                    }
                    assert forall|p: int|
                        0 <= p < self.pubkey_cache@.len() implies (
                        #[trigger] self.pubkey_cache@[p].1@).len() == 32 && ed25519_valid_pubkey(
                        self.pubkey_cache@[p].1@,
                    ) by {
                        if p != i {
                            assert(old(self).cache_entries()[p].1@.len() == 32
                                && ed25519_valid_pubkey(old(self).cache_entries()[p].1@));
                        }
                    }
                    assert(final(self).wf());
                    lemma_cache_post(*self, *old(self), i as int, address@);
                    self.lemma_cache_entry(i as int);
                }
                return Ok(());
            }
            i = i + 1;
        }
        self.pubkey_cache.push((address, key_copy));
        proof {
            assert(self.pubkey_cache@ =~= entries.push(entry));
            assert(old(self).cache_entries() == entries);
            assert forall|p: int, q: int|
                0 <= p < q < self.pubkey_cache@.len() implies self.pubkey_cache@[p].0@
                != self.pubkey_cache@[q].0@ by {
                if q < entries.len() {
                    assert(old(self).cache_entries()[p].0@ != old(self).cache_entries()[q].0@);
                }
            }
            assert forall|p: int|
                0 <= p < self.pubkey_cache@.len() implies (
                #[trigger] self.pubkey_cache@[p].1@).len() == 32 && ed25519_valid_pubkey(
                self.pubkey_cache@[p].1@,
            ) by {
                if p < entries.len() {
                    assert(old(self).cache_entries()[p].1@.len() == 32 && ed25519_valid_pubkey(
                        old(self).cache_entries()[p].1@,
                    ));
                }
            }
            assert(final(self).wf());
            lemma_cache_post(*self, *old(self), entries.len() as int, address@);
            self.lemma_cache_entry(entries.len() as int);
        }
        Ok(())
    }

    /// Verifies one signature: the address must have a cached key, the
    /// signature must be 64 bytes, and Ed25519 verification must pass.
    pub fn verify_signature(&self, address: &str, message: &[u8], signature_bytes: &[u8]) -> (r:
        Result<(), ConsensusError>)
        requires
            self.wf(),
        ensures
            r is Ok <==> self.has_pubkey(address@) && signature_bytes@.len() == 64
                && ed25519_verifies(self.pubkey_of(address@), message@, signature_bytes@),
            !self.has_pubkey(address@) ==> (r matches Err(e) && e matches
                ConsensusError::InvalidValidator(a) && a@ == address@),
            self.has_pubkey(address@) && signature_bytes@.len() != 64 ==> (r matches Err(e)
                && e matches ConsensusError::InvalidSignature(m) && m@ == "malformed signature"@),
            self.has_pubkey(address@) && signature_bytes@.len() == 64 && !ed25519_verifies(
                self.pubkey_of(address@),
                message@,
                signature_bytes@,
            ) ==> (r matches Err(e) && e matches ConsensusError::InvalidSignature(m) && m@
                == "signature verification failed"@),
    {
        let key = address.to_owned();
        let n = self.pubkey_cache.len();
        let mut i: usize = 0;
        while i < n
            invariant
                n == self.cache_entries().len(),
                i <= n,
                key@ == address@,
                self.wf(),
                forall|k: int| 0 <= k < i ==> #[trigger] self.cache_entries()[k].0@ != address@,
            decreases n - i,
        {
            if self.pubkey_cache[i].0.eq(&key) {
                proof {
                    self.lemma_cache_entry(i as int);
                }
                if signature_bytes.len() != 64 {
                    return Err(
                        ConsensusError::InvalidSignature(String::from_str("malformed signature")),
                    );
                }
                if ed25519_verify(self.pubkey_cache[i].1.as_slice(), message, signature_bytes) {
                    return Ok(());
                } else {
                    return Err(
                        ConsensusError::InvalidSignature(
                            String::from_str("signature verification failed"),
                        ),
                    );
                }
            }
            i = i + 1;
        }
        Err(ConsensusError::InvalidValidator(key))
    }

    /// Hashes a block header: SHA-256 over its canonical bytes, signatures
    /// excluded.
    pub fn hash_block_header(header: &BlockHeader) -> (r: Vec<u8>)
        ensures
            r@ == spec_header_hash(*header),
    {
        let bytes = encode_header(header);
        let digest = sha256(bytes.as_slice());
        let mut out: Vec<u8> = Vec::new();
        crate::codec::push_hash(&mut out, &digest);
        proof {
            assert(out@ =~= digest@);
        }
        out
    }

    /// Hashes one transaction: SHA-256 over its canonical encoding.
    pub fn hash_transaction(tx: &Transaction) -> (r: Vec<u8>)
        ensures
            r@ == spec_hash_transaction(*tx),
    {
        let bytes = encode_transaction(tx);
        let digest = sha256(bytes.as_slice());
        let mut out: Vec<u8> = Vec::new();
        crate::codec::push_hash(&mut out, &digest);
        proof {
            assert(out@ =~= digest@);
        }
        out
    }

    /// Hashes a transaction list into the chained commitment a header's
    /// merkle root carries.
    pub fn hash_transactions(transactions: &[Transaction]) -> (r: [u8; 32])
        ensures
            r@ == tx_chain_hash(transactions@),
    {
        let n = transactions.len();
        if n == 0 {
            let empty: Vec<u8> = Vec::new();
            return sha256(empty.as_slice());
        }
        let first = Self::hash_transaction(&transactions[0]);
        let mut root = sha256(first.as_slice());
        proof {
            assert(transactions@.subrange(0, 1) =~= seq![transactions@[0]]);
            assert(root@ == tx_chain_hash(transactions@.subrange(0, 1)));
        }
        let mut i: usize = 1;
        while i < n
            invariant
                n == transactions@.len(),
                1 <= i <= n,
                root@ == tx_chain_hash(transactions@.subrange(0, i as int)),
            decreases n - i,
        {
            let h = Self::hash_transaction(&transactions[i]);
            let mut buf: Vec<u8> = Vec::new();
            crate::codec::push_hash(&mut buf, &root);
            crate::codec::push_bytes(&mut buf, h.as_slice());
            root = sha256(buf.as_slice());
            proof {
                let cur = transactions@.subrange(0, i + 1);
                assert(cur.drop_last() =~= transactions@.subrange(0, i as int));
                assert(cur.last() == transactions@[i as int]);
                assert(buf@ =~= tx_chain_hash(cur.drop_last()) + spec_hash_transaction(cur.last()));
            }
            i = i + 1;
        }
        proof {
            assert(transactions@.subrange(0, n as int) =~= transactions@);
        }
        root
    }

    /// Why one (address, signature) entry fails against this verifier and
    /// validator set, if it does: an unknown validator, a missing key, a
    /// malformed signature, or a failed verification, checked in that order.
    pub open spec fn entry_sig_failure(
        self,
        vs: ValidatorSet,
        msg: Seq<u8>,
        addr: Seq<char>,
        sig: Seq<u8>,
    ) -> Option<SigFailure> {
        if !vs.contains_addr(addr) {
            Some(SigFailure::NotInSet(addr))
        } else if !self.has_pubkey(addr) {
            Some(SigFailure::UnknownKey(addr))
        } else if sig.len() != 64 {
            Some(SigFailure::Malformed(addr))
        } else if !ed25519_verifies(self.pubkey_of(addr), msg, sig) {
            Some(SigFailure::BadSignature(addr))
        } else {
            None
        }
    }

    /// The first failing signature entry, if any.
    pub open spec fn first_sig_failure(
        self,
        vs: ValidatorSet,
        msg: Seq<u8>,
        sigs: Seq<(String, Vec<u8>)>,
    ) -> Option<SigFailure>
        decreases sigs.len(),
    {
        if sigs.len() == 0 {
            None
        } else if self.entry_sig_failure(vs, msg, sigs[0].0@, sigs[0].1@) is Some {
            self.entry_sig_failure(vs, msg, sigs[0].0@, sigs[0].1@)
        } else {
            self.first_sig_failure(vs, msg, sigs.skip(1))
        }
    }

    /// Verifies a block's signatures: at least a threshold of them, each from
    /// a validator in the set, each passing Ed25519 verification over the
    /// header hash. Reports the first failure, in entry order.
    pub fn verify_block_signatures(&self, block: &Block, validator_set: &ValidatorSet) -> (r:
        Result<(), ConsensusError>)
        requires
            self.wf(),
        ensures
            ({
                let sigs = block.header.signatures@;
                let msg = spec_header_hash(block.header);
                let t = validator_set.spec_threshold();
                &&& (r is Ok <==> sigs.len() >= t && self.first_sig_failure(
                    *validator_set,
                    msg,
                    sigs,
                ) is None)
                &&& (sigs.len() < t ==> r == Err::<(), ConsensusError>(
                    ConsensusError::InsufficientSignatures {
                        required: t,
                        actual: sigs.len() as u64,
                    },
                ))
                &&& (sigs.len() >= t ==> match self.first_sig_failure(*validator_set, msg, sigs) {
                    Some(SigFailure::NotInSet(a)) => r matches Err(e) && e matches
                        ConsensusError::ValidatorNotInSet(s) && s@ == a,
                    Some(SigFailure::UnknownKey(a)) => r matches Err(e) && e matches
                        ConsensusError::InvalidValidator(s) && s@ == a,
                    Some(SigFailure::Malformed(_)) => r matches Err(e) && e matches
                        ConsensusError::InvalidSignature(m) && m@ == "malformed signature"@,
                    Some(SigFailure::BadSignature(_)) => r matches Err(e) && e matches
                        ConsensusError::InvalidSignature(m) && m@
                            == "signature verification failed"@,
                    None => r is Ok,
                })
            }),
    {
        let required_sigs = validator_set.threshold();
        let provided_sigs = block.header.signatures.len() as u64;
        if provided_sigs < required_sigs {
            return Err(
                ConsensusError::InsufficientSignatures {
                    required: required_sigs,
                    actual: provided_sigs,
                },
            );
        }
        let message = Self::hash_block_header(&block.header);
        let ghost sigs = block.header.signatures@;
        let ghost msg = spec_header_hash(block.header);
        let n = block.header.signatures.len();
        proof {
            assert(sigs.skip(0) =~= sigs);
        }
        let mut i: usize = 0;
        while i < n
            invariant
                n == sigs.len(),
                i <= n,
                self.wf(),
                sigs == block.header.signatures@,
                msg == spec_header_hash(block.header),
                message@ == msg,
                sigs.len() >= validator_set.spec_threshold(),
                self.first_sig_failure(*validator_set, msg, sigs) == self.first_sig_failure(
                    *validator_set,
                    msg,
                    sigs.skip(i as int),
                ),
                forall|k: int|
                    0 <= k < i ==> self.entry_sig_failure(
                        *validator_set,
                        msg,
                        #[trigger] sigs[k].0@,
                        sigs[k].1@,
                    ) is None,
            decreases n - i,
        {
            let ghost pre = sigs.skip(i as int);
            proof {
                assert(pre[0] == sigs[i as int]);
                assert(pre.skip(1) =~= sigs.skip(i + 1));
            }
            let entry_addr = &block.header.signatures[i].0;
            if !validator_set.contains_validator(entry_addr.as_str()) {
                proof {
                    assert(self.entry_sig_failure(*validator_set, msg, pre[0].0@, pre[0].1@)
                        == Some(SigFailure::NotInSet(sigs[i as int].0@)));
                    assert(self.first_sig_failure(*validator_set, msg, sigs) == Some(
                        SigFailure::NotInSet(sigs[i as int].0@),
                    ));
                }
                return Err(ConsensusError::ValidatorNotInSet(entry_addr.clone()));
            }
            match self.verify_signature(
                entry_addr.as_str(),
                message.as_slice(),
                block.header.signatures[i].1.as_slice(),
            ) {
                Ok(()) => {
                    proof {
                        assert(self.entry_sig_failure(*validator_set, msg, pre[0].0@, pre[0].1@)
                            is None);
                    }
                },
                Err(e) => {
                    proof {
                        let f = self.entry_sig_failure(*validator_set, msg, pre[0].0@, pre[0].1@);
                        assert(f is Some);
                        assert(self.first_sig_failure(*validator_set, msg, sigs) == f);
                    }
                    return Err(e);
                },
            }
            i = i + 1;
        }
        proof {
            assert(sigs.skip(n as int) =~= Seq::<(String, Vec<u8>)>::empty());
        }
        Ok(())
    }
}

impl Default for Ed25519Verifier {
    /// An empty verifier.
    fn default() -> (r: Ed25519Verifier)
        ensures
            r.cache_entries() == Seq::<(String, Vec<u8>)>::empty(),
            r.wf(),
    {
        Ed25519Verifier::new()
    }
}

/// After replacing or appending the entry for `addr`, every other address
/// resolves exactly as before.
proof fn lemma_cache_post(post: Ed25519Verifier, pre: Ed25519Verifier, i: int, addr: Seq<char>)
    requires
        0 <= i <= pre.cache_entries().len(),
        i < pre.cache_entries().len() ==> pre.cache_entries()[i].0@ == addr
            && post.cache_entries() == pre.cache_entries().update(i, post.cache_entries()[i]),
        i == pre.cache_entries().len() ==> post.cache_entries() == pre.cache_entries().push(
            post.cache_entries()[i],
        ),
        post.cache_entries()[i].0@ == addr,
        forall|k: int, j: int|
            0 <= k < j < pre.cache_entries().len() ==> pre.cache_entries()[k].0@
                != pre.cache_entries()[j].0@,
    ensures
        forall|a: Seq<char>| a != addr ==> post.has_pubkey(a) == pre.has_pubkey(a),
        forall|a: Seq<char>|
            a != addr && pre.has_pubkey(a) ==> post.pubkey_of(a) == pre.pubkey_of(a),
{
    assert forall|a: Seq<char>| a != addr implies post.has_pubkey(a) == pre.has_pubkey(a) by {
        if pre.has_pubkey(a) {
            let k = choose|k: int|
                0 <= k < pre.cache_entries().len() && #[trigger] pre.cache_entries()[k].0@ == a;
            assert(k != i);
            assert(post.cache_entries()[k].0@ == a);
            assert(post.has_pubkey(a));
        }
        if post.has_pubkey(a) {
            let k = choose|k: int|
                0 <= k < post.cache_entries().len() && #[trigger] post.cache_entries()[k].0@ == a;
            assert(k != i);
            assert(pre.cache_entries()[k].0@ == a);
            assert(pre.has_pubkey(a));
        }
    }
    assert forall|a: Seq<char>| a != addr && pre.has_pubkey(a) implies post.pubkey_of(a)
        == pre.pubkey_of(a) by {
        let k = choose|k: int|
            0 <= k < pre.cache_entries().len() && #[trigger] pre.cache_entries()[k].0@ == a;
        assert(post.cache_entries()[k].0@ == a);
        assert(post.has_pubkey(a));
        let k2 = choose|k2: int|
            0 <= k2 < post.cache_entries().len() && #[trigger] post.cache_entries()[k2].0@ == a;
        assert(k2 != i);
        assert(pre.cache_entries()[k2].0@ == a);
        if k < k2 {
            assert(pre.cache_entries()[k].0@ != pre.cache_entries()[k2].0@);
        } else if k2 < k {
            assert(pre.cache_entries()[k2].0@ != pre.cache_entries()[k].0@);
        }
        assert(k2 == k);
        assert(post.cache_entries()[k2] == pre.cache_entries()[k2]);
    }
}

} // verus!
