//! Canonical byte encodings.
//!
//! Every hash in the chain is computed over a deterministic binary encoding:
//! integers are little-endian, variable-length fields carry a 64-bit length
//! prefix, and strings contribute their UTF-8 bytes. The encodings here are
//! the single source of truth for what those bytes are.

use vstd::prelude::*;
use vstd::utf8::encode_utf8;

use crate::block::{Block, BlockHeader, Transaction};

verus! {

/// Little-endian byte encoding of a 64-bit integer.
pub open spec fn u64_le_bytes(n: u64) -> Seq<u8> {
    seq![
        (n & 0xff) as u8,
        ((n >> 8) & 0xff) as u8,
        ((n >> 16) & 0xff) as u8,
        ((n >> 24) & 0xff) as u8,
        ((n >> 32) & 0xff) as u8,
        ((n >> 40) & 0xff) as u8,
        ((n >> 48) & 0xff) as u8,
        ((n >> 56) & 0xff) as u8,
    ]
}

/// A byte string carrying its 64-bit length in front, so that encodings of
/// consecutive fields cannot run into each other.
pub open spec fn len_prefixed(b: Seq<u8>) -> Seq<u8> {
    u64_le_bytes(b.len() as u64) + b
}

/// The canonical encoding of a string: the length-prefixed UTF-8 bytes.
pub open spec fn str_encoding(s: Seq<char>) -> Seq<u8> {
    len_prefixed(encode_utf8(s))
}

/// Appends the little-endian encoding of `n` to `out`.
pub fn push_u64_le(out: &mut Vec<u8>, n: u64)
    ensures
        final(out)@ == old(out)@ + u64_le_bytes(n),
{
    out.push((n & 0xff) as u8);
    out.push(((n >> 8) & 0xff) as u8);
    out.push(((n >> 16) & 0xff) as u8);
    out.push(((n >> 24) & 0xff) as u8);
    out.push(((n >> 32) & 0xff) as u8);
    out.push(((n >> 40) & 0xff) as u8);
    out.push(((n >> 48) & 0xff) as u8);
    out.push(((n >> 56) & 0xff) as u8);
    proof {
        assert(out@ =~= old(out)@ + u64_le_bytes(n));
    }
}

/// Appends a byte slice to `out`.
pub fn push_bytes(out: &mut Vec<u8>, b: &[u8])
    ensures
        final(out)@ == old(out)@ + b@,
{
    let mut i: usize = 0;
    while i < b.len()
        invariant
            i <= b@.len(),
            out@ == old(out)@ + b@.subrange(0, i as int),
        decreases b@.len() - i,
    {
        out.push(b[i]);
        proof {
            assert(out@ =~= old(out)@ + b@.subrange(0, i + 1));
        }
        i = i + 1;
    }
    proof {
        assert(b@.subrange(0, b@.len() as int) =~= b@);
    }
}

/// Appends a 32-byte array to `out`.
pub fn push_hash(out: &mut Vec<u8>, h: &[u8; 32])
    ensures
        final(out)@ == old(out)@ + h@,
{
    let mut i: usize = 0;
    while i < 32
        invariant
            i <= 32,
            h@.len() == 32,
            out@ == old(out)@ + h@.subrange(0, i as int),
        decreases 32 - i,
    {
        out.push(h[i]);
        proof {
            assert(out@ =~= old(out)@ + h@.subrange(0, i + 1));
        }
        i = i + 1;
    }
    proof {
        assert(h@.subrange(0, 32) =~= h@);
    }
}

/// Appends the length-prefixed bytes of `b` to `out`.
pub fn push_len_prefixed(out: &mut Vec<u8>, b: &[u8])
    ensures
        final(out)@ == old(out)@ + len_prefixed(b@),
{
    push_u64_le(out, b.len() as u64);
    push_bytes(out, b);
    proof {
        assert(out@ =~= old(out)@ + len_prefixed(b@));
    }
}

/// Appends the canonical encoding of a string to `out`.
pub fn push_str_encoding(out: &mut Vec<u8>, s: &str)
    ensures
        final(out)@ == old(out)@ + str_encoding(s@),
{
    push_len_prefixed(out, s.as_bytes());
}

/// Encoding of a list of byte strings, each length-prefixed.
pub open spec fn args_encoding(args: Seq<Seq<u8>>) -> Seq<u8>
    decreases args.len(),
{
    if args.len() == 0 {
        Seq::empty()
    } else {
        args_encoding(args.drop_last()) + len_prefixed(args.last())
    }
}

/// The canonical binary encoding of a transaction: a tag byte naming the
/// variant, then its fields in declared order.
pub open spec fn tx_encoding(tx: Transaction) -> Seq<u8> {
    match tx {
        Transaction::TechGnosDeploy { bytecode, sender, gas, nonce } => seq![0u8] + len_prefixed(
            bytecode@,
        ) + str_encoding(sender@) + u64_le_bytes(gas) + u64_le_bytes(nonce),
        Transaction::TechGnosCall { contract, function, args, sender, gas, nonce } => seq![1u8]
            + str_encoding(contract@) + str_encoding(function@) + u64_le_bytes(
            args@.len() as u64,
        ) + args_encoding(args.deep_view()) + str_encoding(sender@) + u64_le_bytes(gas)
            + u64_le_bytes(nonce),
        Transaction::Transfer { from, to, amount, nonce } => seq![2u8] + str_encoding(from@)
            + str_encoding(to@) + u64_le_bytes(amount) + u64_le_bytes(nonce),
        Transaction::Governance { proposal_id, action, proposer, nonce } => seq![3u8]
            + str_encoding(proposal_id@) + len_prefixed(action@) + str_encoding(proposer@)
            + u64_le_bytes(nonce),
        Transaction::InheritanceClaim { wallet_id, claimant, nonce } => seq![4u8] + u64_le_bytes(
            wallet_id as u64,
        ) + str_encoding(claimant@) + u64_le_bytes(nonce),
    }
}

/// The bytes a block header is hashed over: every field in declared order,
/// signatures excluded.
pub open spec fn header_bytes(h: BlockHeader) -> Seq<u8> {
    u64_le_bytes(h.block_num) + h.parent_hash@ + u64_le_bytes(h.timestamp) + h.state_root@
        + h.merkle_root@ + u64_le_bytes(h.validator_set_hash)
}

/// Builds the canonical encoding of a transaction.
pub fn encode_transaction(tx: &Transaction) -> (r: Vec<u8>)
    ensures
        r@ == tx_encoding(*tx),
{
    let mut out: Vec<u8> = Vec::new();
    match tx {
        Transaction::TechGnosDeploy { bytecode, sender, gas, nonce } => {
            out.push(0);
            push_len_prefixed(&mut out, bytecode.as_slice());
            push_str_encoding(&mut out, sender.as_str());
            push_u64_le(&mut out, *gas);
            push_u64_le(&mut out, *nonce);
        },
        Transaction::TechGnosCall { contract, function, args, sender, gas, nonce } => {
            out.push(1);
            push_str_encoding(&mut out, contract.as_str());
            push_str_encoding(&mut out, function.as_str());
            push_u64_le(&mut out, args.len() as u64);
            let ghost dv = args.deep_view();
            let ghost base = out@;
            let mut i: usize = 0;
            while i < args.len()
                invariant
                    i <= args@.len(),
                    dv == args.deep_view(),
                    dv.len() == args@.len(),
                    forall|k: int| 0 <= k < args@.len() ==> dv[k] == #[trigger] args@[k]@,
                    out@ == base + args_encoding(dv.subrange(0, i as int)),
                decreases args@.len() - i,
            {
                push_len_prefixed(&mut out, args[i].as_slice());
                proof {
                    let pre = dv.subrange(0, i as int);
                    let cur = dv.subrange(0, i + 1);
                    assert(cur.drop_last() =~= pre);
                    assert(cur.last() == dv[i as int]);
                    assert(out@ =~= base + args_encoding(cur));
                }
                i = i + 1;
            }
            proof {
                assert(dv.subrange(0, dv.len() as int) =~= dv);
            }
            push_str_encoding(&mut out, sender.as_str());
            push_u64_le(&mut out, *gas);
            push_u64_le(&mut out, *nonce);
        },
        Transaction::Transfer { from, to, amount, nonce } => {
            out.push(2);
            push_str_encoding(&mut out, from.as_str());
            push_str_encoding(&mut out, to.as_str());
            push_u64_le(&mut out, *amount);
            push_u64_le(&mut out, *nonce);
        },
        Transaction::Governance { proposal_id, action, proposer, nonce } => {
            out.push(3);
            push_str_encoding(&mut out, proposal_id.as_str());
            push_len_prefixed(&mut out, action.as_slice());
            push_str_encoding(&mut out, proposer.as_str());
            push_u64_le(&mut out, *nonce);
        },
        Transaction::InheritanceClaim { wallet_id, claimant, nonce } => {
            out.push(4);
            push_u64_le(&mut out, *wallet_id as u64);
            push_str_encoding(&mut out, claimant.as_str());
            push_u64_le(&mut out, *nonce);
        },
    }
    proof {
        assert(out@ =~= tx_encoding(*tx));
    }
    out
}

/// Encoding of a signature list: each entry's address and signature bytes,
/// in list order.
pub open spec fn sigs_encoding(sigs: Seq<(String, Vec<u8>)>) -> Seq<u8>
    decreases sigs.len(),
{
    if sigs.len() == 0 {
        Seq::empty()
    } else {
        sigs_encoding(sigs.drop_last()) + str_encoding(sigs.last().0@) + len_prefixed(
            sigs.last().1@,
        )
    }
}

/// Encoding of a transaction list, each transaction in its canonical form.
pub open spec fn txs_encoding(txs: Seq<Transaction>) -> Seq<u8>
    decreases txs.len(),
{
    if txs.len() == 0 {
        Seq::empty()
    } else {
        txs_encoding(txs.drop_last()) + tx_encoding(txs.last())
    }
}

/// The canonical encoding of a whole block: the header bytes, then the
/// counted signature entries, then the counted transactions.
pub open spec fn block_encoding(b: Block) -> Seq<u8> {
    header_bytes(b.header) + u64_le_bytes(b.header.signatures@.len() as u64) + sigs_encoding(
        b.header.signatures@,
    ) + u64_le_bytes(b.transactions@.len() as u64) + txs_encoding(b.transactions@)
}

/// Builds the canonical encoding of a block.
pub fn encode_block(b: &Block) -> (r: Vec<u8>)
    ensures
        r@ == block_encoding(*b),
{
    let mut out = encode_header(&b.header);
    push_u64_le(&mut out, b.header.signatures.len() as u64);
    let ghost base = out@;
    let n = b.header.signatures.len();
    let mut i: usize = 0;
    while i < n
        invariant
            n == b.header.signatures@.len(),
            i <= n,
            out@ == base + sigs_encoding(b.header.signatures@.subrange(0, i as int)),
        decreases n - i,
    {
        push_str_encoding(&mut out, b.header.signatures[i].0.as_str());
        push_len_prefixed(&mut out, b.header.signatures[i].1.as_slice());
        proof {
            let pre = b.header.signatures@.subrange(0, i as int);
            let cur = b.header.signatures@.subrange(0, i + 1);
            assert(cur.drop_last() =~= pre);
            assert(cur.last() == b.header.signatures@[i as int]);
            assert(out@ =~= base + sigs_encoding(cur));
        }
        i = i + 1;
    }
    proof {
        assert(b.header.signatures@.subrange(0, n as int) =~= b.header.signatures@);
    }
    push_u64_le(&mut out, b.transactions.len() as u64);
    let ghost base2 = out@;
    let m = b.transactions.len();
    let mut j: usize = 0;
    while j < m
        invariant
            m == b.transactions@.len(),
            j <= m,
            out@ == base2 + txs_encoding(b.transactions@.subrange(0, j as int)),
        decreases m - j,
    {
        let enc = encode_transaction(&b.transactions[j]);
        push_bytes(&mut out, enc.as_slice());
        proof {
            let pre = b.transactions@.subrange(0, j as int);
            let cur = b.transactions@.subrange(0, j + 1);
            assert(cur.drop_last() =~= pre);
            assert(cur.last() == b.transactions@[j as int]);
            assert(out@ =~= base2 + txs_encoding(cur));
        }
        j = j + 1;
    }
    proof {
        assert(b.transactions@.subrange(0, m as int) =~= b.transactions@);
        assert(out@ =~= block_encoding(*b));
    }
    out
}

/// Builds the bytes a block header is hashed over.
pub fn encode_header(h: &BlockHeader) -> (r: Vec<u8>)
    ensures
        r@ == header_bytes(*h),
{
    let mut out: Vec<u8> = Vec::new();
    push_u64_le(&mut out, h.block_num);
    push_hash(&mut out, &h.parent_hash);
    push_u64_le(&mut out, h.timestamp);
    push_hash(&mut out, &h.state_root);
    push_hash(&mut out, &h.merkle_root);
    push_u64_le(&mut out, h.validator_set_hash);
    proof {
        assert(out@ =~= header_bytes(*h));
    }
    out
}

} // verus!
