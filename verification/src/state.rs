//! World state: accounts, balances, nonces, contract code, block history.
//!
//! Accounts are held sorted by the UTF-8 bytes of their addresses, so the
//! state root is computed over a canonical serialization: peers holding the
//! same accounts compute the same root. Contracts are stated over a ghost
//! map from addresses to account contents.

use vstd::prelude::*;
use vstd::string::StringSliceAdditionalSpecFns;
use vstd::utf8::{decode_utf8, encode_utf8};

use crate::block::{tx_sender, Transaction};
use crate::codec::{
    len_prefixed, push_hash, push_len_prefixed, push_str_encoding, push_u64_le, str_encoding,
    u64_le_bytes,
};
use crate::crypto::{sha256, sha256_of};
use crate::errors::{
    account_not_found_error, account_not_found_msg, insufficient_balance_error,
    insufficient_balance_msg, nonce_mismatch_error, nonce_mismatch_msg, ConsensusError,
};
use crate::order::{bytes_le, bytes_le_exec, lemma_bytes_le_antisym, lemma_bytes_le_total, lemma_bytes_le_trans};

verus! {

/// An account: a balance, a replay-protection nonce, optional contract code,
/// and a storage root for contract state.
#[derive(Clone, Debug)]
pub struct Account {
    /// The account address.
    pub address: String,
    /// Token balance, in smallest units.
    pub ase_balance: u64,
    /// Replay-protection nonce.
    pub nonce: u64,
    /// Contract code, if this account is a contract.
    pub code: Option<Vec<u8>>,
    /// Storage root for contract state.
    pub storage_root: [u8; 32],
}

/// Receipt of transaction execution.
#[derive(Clone, Debug)]
pub struct TransactionReceipt {
    /// Hash of the executed transaction.
    pub tx_hash: String,
    /// Block the transaction was included in.
    pub block_num: u64,
    /// Outcome.
    pub status: TransactionStatus,
    /// Gas consumed.
    pub gas_used: u64,
    /// Output bytes.
    pub output: Vec<u8>,
}

/// Outcome recorded in a receipt.
#[derive(Clone, Debug, Eq, PartialEq)]
pub enum TransactionStatus {
    /// Executed successfully.
    Success,
    /// Failed with a message.
    Failed(String),
    /// Not yet executed.
    Pending,
}

/// The ghost contents of an account: what the state's map holds at an
/// address.
pub struct AccountM {
    /// Token balance.
    pub balance: u64,
    /// Replay-protection nonce.
    pub nonce: u64,
    /// Contract code bytes, if any.
    pub code: Option<Seq<u8>>,
    /// Storage root bytes.
    pub storage_root: Seq<u8>,
}

/// The ghost world state: accounts by address, chain height, and the hash
/// recorded for each committed block.
pub struct StateM {
    /// Accounts keyed by address.
    pub accounts: Map<Seq<char>, AccountM>,
    /// Number of committed blocks.
    pub height: u64,
    /// Block hashes keyed by block number, from one to the height.
    pub history: Map<u64, Seq<u8>>,
}

/// The ghost contents of an exec account.
pub open spec fn acct_m(a: Account) -> AccountM {
    AccountM {
        balance: a.ase_balance,
        nonce: a.nonce,
        code: match a.code {
            Some(c) => Some(c@),
            None => None,
        },
        storage_root: a.storage_root@,
    }
}

/// The contents of a fresh account: zero balance, zero nonce, no code.
pub open spec fn empty_account_m() -> AccountM {
    AccountM { balance: 0, nonce: 0, code: None, storage_root: Seq::new(32, |i: int| 0u8) }
}

/// Whether some account in the list has this address.
pub open spec fn has_addr(accs: Seq<Account>, a: Seq<char>) -> bool {
    exists|i: int| 0 <= i < accs.len() && #[trigger] accs[i].address@ == a
}

/// The index of the account with this address.
pub open spec fn addr_idx(accs: Seq<Account>, a: Seq<char>) -> int {
    choose|i: int| 0 <= i < accs.len() && #[trigger] accs[i].address@ == a
}

/// The account list as a map from address to contents.
pub open spec fn accts_map(accs: Seq<Account>) -> Map<Seq<char>, AccountM> {
    Map::new(|a: Seq<char>| has_addr(accs, a), |a: Seq<char>| acct_m(accs[addr_idx(accs, a)]))
}

/// No two accounts share an address.
pub open spec fn distinct_accounts(accs: Seq<Account>) -> bool {
    forall|i: int, j: int| 0 <= i < j < accs.len() ==> accs[i].address@ != accs[j].address@
}

/// The UTF-8 bytes an account is ordered by.
pub open spec fn addr_bytes(a: Account) -> Seq<u8> {
    encode_utf8(a.address@)
}

/// Accounts are in ascending address-byte order.
pub open spec fn sorted_accounts(accs: Seq<Account>) -> bool {
    forall|i: int, j: int|
        0 <= i < j < accs.len() ==> bytes_le(
            addr_bytes(#[trigger] accs[i]),
            addr_bytes(#[trigger] accs[j]),
        )
}

/// An account found at an index is the one its address resolves to.
proof fn lemma_acct_at(accs: Seq<Account>, i: int)
    requires
        distinct_accounts(accs),
        0 <= i < accs.len(),
    ensures
        has_addr(accs, accs[i].address@),
        accts_map(accs).contains_key(accs[i].address@),
        addr_idx(accs, accs[i].address@) == i,
        accts_map(accs)[accs[i].address@] == acct_m(accs[i]),
{
    let a = accs[i].address@;
    assert(has_addr(accs, a));
    let j = addr_idx(accs, a);
    if i < j {
        assert(accs[i].address@ != accs[j].address@);
    } else if j < i {
        assert(accs[j].address@ != accs[i].address@);
    }
}

/// Replacing the account at an index, keeping its address, updates the map
/// at that address and nothing else.
proof fn lemma_map_update(accs: Seq<Account>, i: int, acct: Account)
    requires
        distinct_accounts(accs),
        sorted_accounts(accs),
        0 <= i < accs.len(),
        acct.address@ == accs[i].address@,
        addr_bytes(acct) == addr_bytes(accs[i]),
    ensures
        distinct_accounts(accs.update(i, acct)),
        sorted_accounts(accs.update(i, acct)),
        accts_map(accs.update(i, acct)) == accts_map(accs).insert(acct.address@, acct_m(acct)),
{
    let upd = accs.update(i, acct);
    let m1 = accts_map(upd);
    let m2 = accts_map(accs).insert(acct.address@, acct_m(acct));
    assert forall|p: int, q: int| 0 <= p < q < upd.len() implies upd[p].address@
        != upd[q].address@ by {
        assert(accs[p].address@ != accs[q].address@);
    }
    assert forall|p: int, q: int| 0 <= p < q < upd.len() implies bytes_le(
        addr_bytes(upd[p]),
        addr_bytes(upd[q]),
    ) by {
        assert(bytes_le(addr_bytes(accs[p]), addr_bytes(accs[q])));
    }
    assert forall|b: Seq<char>| m1.dom().contains(b) implies m2.dom().contains(b) by {
        let k = addr_idx(upd, b);
        if k == i {
        } else {
            assert(accs[k].address@ == b);
            assert(has_addr(accs, b));
        }
    }
    assert forall|b: Seq<char>| m2.dom().contains(b) implies m1.dom().contains(b) by {
        if b == acct.address@ {
            assert(upd[i].address@ == b);
            assert(has_addr(upd, b));
        } else {
            let k = addr_idx(accs, b);
            assert(accs[k].address@ == b);
            assert(k != i);
            assert(upd[k].address@ == b);
            assert(has_addr(upd, b));
        }
    }
    assert forall|b: Seq<char>| m1.dom().contains(b) implies m1[b] == m2[b] by {
        if b == acct.address@ {
            lemma_acct_at(upd, i);
        } else {
            let k = addr_idx(upd, b);
            assert(upd[k].address@ == b);
            assert(k != i);
            assert(accs[k].address@ == b);
            lemma_acct_at(upd, k);
            lemma_acct_at(accs, k);
        }
    }
    assert(m1 =~= m2);
}

/// Inserting an account whose address is absent extends the map at that
/// address and changes nothing else.
proof fn lemma_map_insert(accs: Seq<Account>, p: int, acct: Account)
    requires
        distinct_accounts(accs),
        !has_addr(accs, acct.address@),
        0 <= p <= accs.len(),
    ensures
        distinct_accounts(accs.insert(p, acct)),
        accts_map(accs.insert(p, acct)) == accts_map(accs).insert(acct.address@, acct_m(acct)),
{
    let ins = accs.insert(p, acct);
    let m1 = accts_map(ins);
    let m2 = accts_map(accs).insert(acct.address@, acct_m(acct));
    assert forall|k: int| 0 <= k < p implies ins[k] == accs[k] by {}
    assert(ins[p] == acct);
    assert forall|k: int| p < k < ins.len() implies ins[k] == accs[k - 1] by {}
    assert forall|q: int, r: int| 0 <= q < r < ins.len() implies ins[q].address@
        != ins[r].address@ by {
        if q == p {
            assert(ins[r] == accs[r - 1]);
            assert(!(accs[r - 1].address@ == acct.address@));
        } else if r == p {
            assert(ins[q] == accs[q]);
            assert(!(accs[q].address@ == acct.address@));
        } else {
            let q0: int = if q < p {
                q
            } else {
                q - 1
            };
            let r0: int = if r < p {
                r
            } else {
                r - 1
            };
            assert(ins[q] == accs[q0]);
            assert(ins[r] == accs[r0]);
            assert(accs[q0].address@ != accs[r0].address@);
        }
    }
    assert forall|b: Seq<char>| m1.dom().contains(b) implies m2.dom().contains(b) by {
        let k = addr_idx(ins, b);
        if k == p {
        } else {
            let k0: int = if k < p {
                k
            } else {
                k - 1
            };
            assert(accs[k0].address@ == b);
            assert(has_addr(accs, b));
        }
    }
    assert forall|b: Seq<char>| m2.dom().contains(b) implies m1.dom().contains(b) by {
        if b == acct.address@ {
            assert(ins[p].address@ == b);
            assert(has_addr(ins, b));
        } else {
            let k = addr_idx(accs, b);
            let k1: int = if k < p {
                k
            } else {
                k + 1
            };
            assert(ins[k1].address@ == b);
            assert(has_addr(ins, b));
        }
    }
    assert forall|b: Seq<char>| m1.dom().contains(b) implies m1[b] == m2[b] by {
        if b == acct.address@ {
            lemma_acct_at(ins, p);
        } else {
            let k = addr_idx(ins, b);
            assert(ins[k].address@ == b);
            assert(k != p);
            let k0: int = if k < p {
                k
            } else {
                k - 1
            };
            assert(ins[k] == accs[k0]);
            lemma_acct_at(ins, k);
            lemma_acct_at(accs, k0);
        }
    }
    assert(m1 =~= m2);
}

/// Inserting at the position the comparisons picked keeps the list sorted.
proof fn lemma_sorted_insert(accs: Seq<Account>, p: int, acct: Account)
    requires
        sorted_accounts(accs),
        0 <= p <= accs.len(),
        forall|k: int| 0 <= k < p ==> !bytes_le(addr_bytes(acct), addr_bytes(#[trigger] accs[k])),
        p < accs.len() ==> bytes_le(addr_bytes(acct), addr_bytes(accs[p])),
    ensures
        sorted_accounts(accs.insert(p, acct)),
{
    let ins = accs.insert(p, acct);
    assert forall|k: int| 0 <= k < p implies ins[k] == accs[k] by {}
    assert(ins[p] == acct);
    assert forall|k: int| p < k < ins.len() implies ins[k] == accs[k - 1] by {}
    assert forall|q: int, r: int| 0 <= q < r < ins.len() implies bytes_le(
        addr_bytes(ins[q]),
        addr_bytes(ins[r]),
    ) by {
        if q == p {
            // acct versus a later entry
            if r == p + 1 {
                assert(ins[r] == accs[p]);
            } else {
                assert(ins[r] == accs[r - 1]);
                assert(bytes_le(addr_bytes(accs[p]), addr_bytes(accs[r - 1])));
                lemma_bytes_le_trans(addr_bytes(acct), addr_bytes(accs[p]), addr_bytes(ins[r]));
            }
        } else if r == p {
            // an earlier entry versus acct
            assert(ins[q] == accs[q]);
            lemma_bytes_le_total(addr_bytes(acct), addr_bytes(accs[q]));
        } else {
            let q0: int = if q < p {
                q
            } else {
                q - 1
            };
            let r0: int = if r < p {
                r
            } else {
                r - 1
            };
            assert(ins[q] == accs[q0]);
            assert(ins[r] == accs[r0]);
            if q0 < r0 {
                assert(bytes_le(addr_bytes(accs[q0]), addr_bytes(accs[r0])));
            } else {
                assert(q0 == r0);
            }
        }
    }
}

/// The canonical encoding of one account: the address, balance, nonce, a
/// tagged optional code field, and the storage root.
pub open spec fn account_bytes(a: Account) -> Seq<u8> {
    str_encoding(a.address@) + u64_le_bytes(a.ase_balance) + u64_le_bytes(a.nonce) + (
    match a.code {
        None => seq![0u8],
        Some(c) => seq![1u8] + len_prefixed(c@),
    }) + a.storage_root@
}

/// The encodings of the accounts, in list (address) order.
pub open spec fn accounts_body(accs: Seq<Account>) -> Seq<u8>
    decreases accs.len(),
{
    if accs.len() == 0 {
        Seq::empty()
    } else {
        accounts_body(accs.drop_last()) + account_bytes(accs.last())
    }
}

/// The canonical serialization of the account list: the count, then each
/// account in address order.
pub open spec fn accounts_encoding(accs: Seq<Account>) -> Seq<u8> {
    u64_le_bytes(accs.len() as u64) + accounts_body(accs)
}

impl Account {
    /// A fresh account with zero balance and nonce and no code.
    pub fn new(address: String) -> (a: Account)
        ensures
            a.address == address,
            acct_m(a) == empty_account_m(),
    {
        let a = Account {
            address,
            ase_balance: 0,
            nonce: 0,
            code: None,
            storage_root: [0u8; 32],
        };
        proof {
            assert(a.storage_root@ =~= Seq::new(32, |i: int| 0u8));
            assert(acct_m(a) =~= empty_account_m());
        }
        a
    }

    /// A fresh account with the given balance.
    pub fn with_balance(address: String, balance: u64) -> (a: Account)
        ensures
            a.address == address,
            acct_m(a) == (AccountM { balance, ..empty_account_m() }),
    {
        let a = Account {
            address,
            ase_balance: balance,
            nonce: 0,
            code: None,
            storage_root: [0u8; 32],
        };
        proof {
            assert(a.storage_root@ =~= Seq::new(32, |i: int| 0u8));
            assert(acct_m(a) =~= AccountM { balance, ..empty_account_m() });
        }
        a
    }

    /// Whether this account is a contract: it has code.
    pub fn is_contract(&self) -> (r: bool)
        ensures
            r == (self.code is Some),
    {
        self.code.is_some()
    }
}

/// A value-equal copy of an account.
fn clone_account(a: &Account) -> (r: Account)
    ensures
        r.address == a.address,
        acct_m(r) == acct_m(*a),
        addr_bytes(r) == addr_bytes(*a),
{
    let code = match &a.code {
        Some(c) => {
            let mut copy: Vec<u8> = Vec::new();
            crate::codec::push_bytes(&mut copy, c.as_slice());
            Some(copy)
        },
        None => None,
    };
    let r = Account {
        address: a.address.clone(),
        ase_balance: a.ase_balance,
        nonce: a.nonce,
        code,
        storage_root: a.storage_root,
    };
    proof {
        assert(acct_m(r) =~= acct_m(*a));
    }
    r
}

/// World state: all accounts, the chain height, the state root, and the
/// recorded block hashes.
#[derive(Clone, Debug)]
pub struct State {
    /// All accounts, in ascending address-byte order.
    pub accounts: Vec<Account>,
    /// Number of committed blocks.
    pub block_height: u64,
    /// SHA-256 over the canonical serialization of the accounts, recomputed
    /// at each commit.
    pub root_hash: [u8; 32],
    /// The hash recorded for each committed block, in height order.
    pub block_history: Vec<[u8; 32]>,
    /// Transaction receipts, keyed by transaction hash.
    pub receipts: Vec<(String, TransactionReceipt)>,
}

impl View for State {
    type V = StateM;

    open spec fn view(&self) -> StateM {
        StateM {
            accounts: accts_map(self.accounts@),
            height: self.block_height,
            history: Map::new(
                |n: u64| 1 <= n <= self.block_history@.len(),
                |n: u64| self.block_history@[n - 1]@,
            ),
        }
    }
}

/// The balance at an address; zero if the account does not exist.
pub open spec fn bal_of(m: StateM, a: Seq<char>) -> u64 {
    if m.accounts.contains_key(a) {
        m.accounts[a].balance
    } else {
        0
    }
}

/// The account contents at an address, or a fresh account's contents.
pub open spec fn acct_or_empty(m: StateM, a: Seq<char>) -> AccountM {
    if m.accounts.contains_key(a) {
        m.accounts[a]
    } else {
        empty_account_m()
    }
}

/// What a transfer leaves behind: the sender account (created if absent)
/// debited, then the recipient account (created if absent) credited.
pub open spec fn transfer_map(
    m: Map<Seq<char>, AccountM>,
    from: Seq<char>,
    to: Seq<char>,
    amount: u64,
) -> Map<Seq<char>, AccountM> {
    let from_prev = if m.contains_key(from) {
        m[from]
    } else {
        empty_account_m()
    };
    let m1 = m.insert(
        from,
        AccountM { balance: (from_prev.balance - amount) as u64, ..from_prev },
    );
    let to_prev = if m1.contains_key(to) {
        m1[to]
    } else {
        empty_account_m()
    };
    m1.insert(to, AccountM { balance: (to_prev.balance + amount) as u64, ..to_prev })
}

/// The credit step of a transfer stays within 64 bits. The debit step never
/// overflows: it only runs when the sender exists and its balance covers the
/// amount.
pub open spec fn transfer_fits(m: StateM, from: Seq<char>, to: Seq<char>, amount: u64) -> bool {
    m.accounts.contains_key(from) && bal_of(m, from) >= amount && from != to
        && m.accounts.contains_key(to) ==> m.accounts[to].balance + amount <= u64::MAX
}

impl State {
    /// The accounts, in ascending address-byte order.
    pub open spec fn accounts_seq(self) -> Seq<Account> {
        self.accounts@
    }

    /// What construction guarantees and every operation preserves: accounts
    /// sorted by address bytes with no duplicate address, and one recorded
    /// hash per committed block.
    pub open spec fn wf(self) -> bool {
        &&& distinct_accounts(self.accounts_seq())
        &&& sorted_accounts(self.accounts_seq())
        &&& self.block_history_len() == self.block_height
    }

    /// The number of recorded block hashes.
    pub open spec fn block_history_len(self) -> int {
        self.block_history@.len() as int
    }

    /// An empty state: no accounts, height zero, an all-zero root.
    pub fn new() -> (s: State)
        ensures
            s.wf(),
            s@.accounts == Map::<Seq<char>, AccountM>::empty(),
            s@.height == 0,
            s@.history == Map::<u64, Seq<u8>>::empty(),
            s.block_height == 0,
            s.root_hash@ == Seq::new(32, |i: int| 0u8),
            s.accounts_seq() == Seq::<Account>::empty(),
            s.receipts@.len() == 0,
    {
        let s = State {
            accounts: Vec::new(),
            block_height: 0,
            root_hash: [0u8; 32],
            block_history: Vec::new(),
            receipts: Vec::new(),
        };
        proof {
            assert(s.root_hash@ =~= Seq::new(32, |i: int| 0u8));
            assert(s@.accounts =~= Map::<Seq<char>, AccountM>::empty());
            assert(s@.history =~= Map::<u64, Seq<u8>>::empty());
        }
        s
    }

    /// The index holding an address, if any.
    fn find_account_idx(&self, address: &str) -> (r: Option<usize>)
        requires
            self.wf(),
        ensures
            match r {
                Some(i) => i < self.accounts_seq().len() && self.accounts_seq()[i as int].address@
                    == address@ && self@.accounts.contains_key(address@)
                    && self@.accounts[address@] == acct_m(self.accounts_seq()[i as int]),
                None => !self@.accounts.contains_key(address@),
            },
    {
        let key = address.to_owned();
        let n = self.accounts.len();
        let mut i: usize = 0;
        while i < n
            invariant
                n == self.accounts_seq().len(),
                i <= n,
                key@ == address@,
                self.wf(),
                forall|k: int| 0 <= k < i ==> #[trigger] self.accounts_seq()[k].address@
                    != address@,
            decreases n - i,
        {
            if self.accounts[i].address.eq(&key) {
                proof {
                    lemma_acct_at(self.accounts_seq(), i as int);
                }
                return Some(i);
            }
            i = i + 1;
        }
        None
    }

    /// The position an absent address inserts at, keeping the list sorted.
    fn insert_position(&self, key_bytes: &[u8]) -> (p: usize)
        ensures
            p <= self.accounts_seq().len(),
            forall|k: int|
                0 <= k < p ==> !bytes_le(key_bytes@, addr_bytes(
                    #[trigger] self.accounts_seq()[k],
                )),
            p < self.accounts_seq().len() ==> bytes_le(
                key_bytes@,
                addr_bytes(self.accounts_seq()[p as int]),
            ),
    {
        let n = self.accounts.len();
        let mut p: usize = 0;
        while p < n
            invariant
                n == self.accounts_seq().len(),
                p <= n,
                forall|k: int|
                    0 <= k < p ==> !bytes_le(key_bytes@, addr_bytes(
                        #[trigger] self.accounts_seq()[k],
                    )),
            decreases n - p,
        {
            if bytes_le_exec(key_bytes, self.accounts[p].address.as_str().as_bytes()) {
                return p;
            }
            p = p + 1;
        }
        p
    }

    /// Finds the account for an address, creating a fresh one in sorted
    /// position if absent; returns its index.
    fn ensure_account(&mut self, address: &str) -> (i: usize)
        requires
            old(self).wf(),
        ensures
            final(self).wf(),
            i < final(self).accounts_seq().len(),
            final(self).accounts_seq()[i as int].address@ == address@,
            acct_m(final(self).accounts_seq()[i as int]) == acct_or_empty(old(self)@, address@),
            final(self)@.accounts == old(self)@.accounts.insert(
                address@,
                acct_or_empty(old(self)@, address@),
            ),
            old(self)@.accounts.contains_key(address@) ==> *final(self) == *old(self),
            final(self).block_height == old(self).block_height,
            final(self).root_hash == old(self).root_hash,
            final(self)@.height == old(self)@.height,
            final(self)@.history == old(self)@.history,
            final(self).receipts == old(self).receipts,
    {
        match self.find_account_idx(address) {
            Some(i) => {
                proof {
                    assert(old(self)@.accounts.insert(address@, old(self)@.accounts[address@])
                        =~= old(self)@.accounts);
                }
                i
            },
            None => {
                let p = self.insert_position(address.as_bytes());
                let fresh = Account::new(address.to_owned());
                proof {
                    assert(fresh.address@ == address@);
                    assert(addr_bytes(fresh) == address.spec_bytes());
                    lemma_sorted_insert(self.accounts@, p as int, fresh);
                    lemma_map_insert(self.accounts@, p as int, fresh);
                }
                self.accounts.insert(p, fresh);
                proof {
                    assert(final(self)@.history =~= old(self)@.history);
                }
                p
            },
        }
    }

    /// Looks an account up by address; creates it with zero balance and
    /// nonce on a miss. Returns a copy of the account.
    pub fn get_or_create_account(&mut self, address: &str) -> (acct: Account)
        requires
            old(self).wf(),
        ensures
            final(self).wf(),
            acct.address@ == address@,
            acct_m(acct) == acct_or_empty(old(self)@, address@),
            final(self)@.accounts == old(self)@.accounts.insert(address@, acct_m(acct)),
            old(self)@.accounts.contains_key(address@) ==> *final(self) == *old(self),
            final(self).block_height == old(self).block_height,
            final(self).root_hash == old(self).root_hash,
            final(self)@.height == old(self)@.height,
            final(self)@.history == old(self)@.history,
            final(self).receipts == old(self).receipts,
    {
        let i = self.ensure_account(address);
        clone_account(&self.accounts[i])
    }

    /// Looks an account up, read-only.
    pub fn get_account(&self, address: &str) -> (r: Option<&Account>)
        requires
            self.wf(),
        ensures
            r is Some <==> self@.accounts.contains_key(address@),
            r matches Some(a) ==> a.address@ == address@ && acct_m(*a)
                == self@.accounts[address@],
    {
        match self.find_account_idx(address) {
            Some(i) => Some(&self.accounts[i]),
            None => None,
        }
    }

    /// Sets an account's balance outright, creating the account if absent.
    pub fn update_balance(&mut self, address: &str, new_balance: u64) -> (r: Result<
        (),
        ConsensusError,
    >)
        requires
            old(self).wf(),
        ensures
            final(self).wf(),
            r is Ok,
            final(self)@.accounts == old(self)@.accounts.insert(
                address@,
                AccountM { balance: new_balance, ..acct_or_empty(old(self)@, address@) },
            ),
            final(self).block_height == old(self).block_height,
            final(self).root_hash == old(self).root_hash,
            final(self)@.height == old(self)@.height,
            final(self)@.history == old(self)@.history,
            final(self).receipts == old(self).receipts,
    {
        let i = self.ensure_account(address);
        let ghost mid = *self;
        let mut a = clone_account(&self.accounts[i]);
        a.ase_balance = new_balance;
        proof {
            lemma_map_update(self.accounts@, i as int, a);
        }
        self.accounts[i] = a;
        proof {
            assert(final(self)@.accounts =~= old(self)@.accounts.insert(
                address@,
                AccountM { balance: new_balance, ..acct_or_empty(old(self)@, address@) },
            ));
            assert(final(self)@.history =~= old(self)@.history);
        }
        Ok(())
    }

    /// Moves tokens between accounts. Fails, leaving the state unchanged,
    /// when the sender account is missing or its balance is below the
    /// amount; otherwise debits the sender and credits the recipient,
    /// creating the recipient if needed, and touches no other account.
    pub fn transfer(&mut self, from: &str, to: &str, amount: u64) -> (r: Result<
        (),
        ConsensusError,
    >)
        requires
            old(self).wf(),
            transfer_fits(old(self)@, from@, to@, amount),
        ensures
            final(self).wf(),
            r is Ok <==> old(self)@.accounts.contains_key(from@) && bal_of(old(self)@, from@)
                >= amount,
            !old(self)@.accounts.contains_key(from@) ==> (r matches Err(e) && e matches
                ConsensusError::InvalidStateTransition(m) && m@ == account_not_found_msg(from@)
                && *final(self) == *old(self)),
            old(self)@.accounts.contains_key(from@) && bal_of(old(self)@, from@) < amount ==> (
            r matches Err(e) && e matches ConsensusError::InvalidStateTransition(m) && m@
                == insufficient_balance_msg(bal_of(old(self)@, from@), amount) && *final(self)
                == *old(self)),
            r is Ok ==> final(self)@.accounts == transfer_map(
                old(self)@.accounts,
                from@,
                to@,
                amount,
            ),
            forall|a: Seq<char>|
                a != from@ && a != to@ ==> (final(self)@.accounts.contains_key(a)
                    == old(self)@.accounts.contains_key(a) && (old(self)@.accounts.contains_key(a)
                    ==> final(self)@.accounts[a] == old(self)@.accounts[a])),
            final(self).block_height == old(self).block_height,
            final(self).root_hash == old(self).root_hash,
            final(self).receipts == old(self).receipts,
            final(self)@.height == old(self)@.height,
            final(self)@.history == old(self)@.history,
    {
        let i = match self.find_account_idx(from) {
            Some(i) => i,
            None => {
                return Err(account_not_found_error(from));
            },
        };
        let from_balance = self.accounts[i].ase_balance;
        if from_balance < amount {
            return Err(insufficient_balance_error(from_balance, amount));
        }
        let mut a = clone_account(&self.accounts[i]);
        a.ase_balance = a.ase_balance - amount;
        proof {
            lemma_map_update(self.accounts@, i as int, a);
        }
        self.accounts[i] = a;
        let ghost m_debited = self@.accounts;
        proof {
            assert(m_debited =~= old(self)@.accounts.insert(
                from@,
                AccountM {
                    balance: (acct_or_empty(old(self)@, from@).balance - amount) as u64,
                    ..acct_or_empty(old(self)@, from@)
                },
            ));
        }
        let j = self.ensure_account(to);
        let ghost to_prev = acct_m(self.accounts@[j as int]);
        let mut b = clone_account(&self.accounts[j]);
        proof {
            if to@ == from@ {
                assert(to_prev.balance + amount <= u64::MAX);
            } else {
                if old(self)@.accounts.contains_key(to@) {
                    assert(to_prev == old(self)@.accounts[to@]);
                } else {
                    assert(to_prev == empty_account_m());
                }
            }
        }
        b.ase_balance = b.ase_balance + amount;
        proof {
            lemma_map_update(self.accounts@, j as int, b);
        }
        self.accounts[j] = b;
        proof {
            assert(final(self)@.accounts =~= transfer_map(
                old(self)@.accounts,
                from@,
                to@,
                amount,
            ));
            assert(final(self)@.history =~= old(self)@.history);
        }
        Ok(())
    }

    /// Installs contract code on an account, creating it if absent.
    pub fn deploy_contract(&mut self, address: &str, bytecode: Vec<u8>) -> (r: Result<
        (),
        ConsensusError,
    >)
        requires
            old(self).wf(),
        ensures
            final(self).wf(),
            r is Ok,
            final(self)@.accounts == old(self)@.accounts.insert(
                address@,
                AccountM { code: Some(bytecode@), ..acct_or_empty(old(self)@, address@) },
            ),
            final(self).block_height == old(self).block_height,
            final(self).root_hash == old(self).root_hash,
            final(self)@.height == old(self)@.height,
            final(self)@.history == old(self)@.history,
            final(self).receipts == old(self).receipts,
    {
        let i = self.ensure_account(address);
        let mut a = clone_account(&self.accounts[i]);
        a.code = Some(bytecode);
        proof {
            lemma_map_update(self.accounts@, i as int, a);
        }
        self.accounts[i] = a;
        proof {
            assert(final(self)@.accounts =~= old(self)@.accounts.insert(
                address@,
                AccountM { code: Some(bytecode@), ..acct_or_empty(old(self)@, address@) },
            ));
            assert(final(self)@.history =~= old(self)@.history);
        }
        Ok(())
    }

    /// Advances the sender's nonce by one, creating the account if absent.
    pub(crate) fn bump_nonce(&mut self, address: &str)
        requires
            old(self).wf(),
            acct_or_empty(old(self)@, address@).nonce < u64::MAX,
        ensures
            final(self).wf(),
            final(self)@.accounts == old(self)@.accounts.insert(
                address@,
                AccountM {
                    nonce: (acct_or_empty(old(self)@, address@).nonce + 1) as u64,
                    ..acct_or_empty(old(self)@, address@)
                },
            ),
            final(self).block_height == old(self).block_height,
            final(self).root_hash == old(self).root_hash,
            final(self)@.height == old(self)@.height,
            final(self)@.history == old(self)@.history,
            final(self).receipts == old(self).receipts,
    {
        let i = self.ensure_account(address);
        let mut a = clone_account(&self.accounts[i]);
        a.nonce = a.nonce + 1;
        proof {
            lemma_map_update(self.accounts@, i as int, a);
        }
        self.accounts[i] = a;
        proof {
            assert(final(self)@.accounts =~= old(self)@.accounts.insert(
                address@,
                AccountM {
                    nonce: (acct_or_empty(old(self)@, address@).nonce + 1) as u64,
                    ..acct_or_empty(old(self)@, address@)
                },
            ));
            assert(final(self)@.history =~= old(self)@.history);
        }
    }

    /// Recomputes the state root: SHA-256 over the canonical serialization
    /// of the accounts, in ascending address order.
    fn update_root_hash(&mut self)
        ensures
            final(self).root_hash@ == sha256_of(accounts_encoding(old(self).accounts_seq())),
            final(self).accounts == old(self).accounts,
            final(self).block_height == old(self).block_height,
            final(self).block_history == old(self).block_history,
            final(self).receipts == old(self).receipts,
    {
        let mut out: Vec<u8> = Vec::new();
        push_u64_le(&mut out, self.accounts.len() as u64);
        let ghost base = out@;
        let n = self.accounts.len();
        let mut i: usize = 0;
        while i < n
            invariant
                n == self.accounts_seq().len(),
                i <= n,
                self == old(self),
                base == u64_le_bytes(n as u64),
                out@ == base + accounts_body(self.accounts_seq().subrange(0, i as int)),
            decreases n - i,
        {
            let a = &self.accounts[i];
            push_str_encoding(&mut out, a.address.as_str());
            push_u64_le(&mut out, a.ase_balance);
            push_u64_le(&mut out, a.nonce);
            match &a.code {
                None => {
                    out.push(0);
                },
                Some(c) => {
                    out.push(1);
                    push_len_prefixed(&mut out, c.as_slice());
                },
            }
            push_hash(&mut out, &a.storage_root);
            proof {
                let pre = self.accounts_seq().subrange(0, i as int);
                let cur = self.accounts_seq().subrange(0, i + 1);
                assert(cur.drop_last() =~= pre);
                assert(cur.last() == self.accounts_seq()[i as int]);
                assert(out@ =~= base + accounts_body(cur));
            }
            i = i + 1;
        }
        proof {
            assert(self.accounts_seq().subrange(0, n as int) =~= self.accounts_seq());
            assert(out@ =~= accounts_encoding(self.accounts_seq()));
        }
        let root = sha256(out.as_slice());
        self.root_hash = root;
    }

    /// Commits a block: advances the height by one, records the block hash
    /// under the new height, and recomputes the state root over the
    /// (unchanged) accounts.
    pub fn commit_block(&mut self, block_hash: [u8; 32]) -> (r: Result<(), ConsensusError>)
        requires
            old(self).wf(),
            old(self).block_height < u64::MAX,
        ensures
            final(self).wf(),
            r is Ok,
            final(self)@.accounts == old(self)@.accounts,
            final(self).block_height == old(self).block_height + 1,
            final(self)@.height == old(self)@.height + 1,
            final(self)@.history == old(self)@.history.insert(
                (old(self)@.height + 1) as u64,
                block_hash@,
            ),
            final(self).root_hash@ == sha256_of(accounts_encoding(old(self).accounts_seq())),
            final(self).accounts_seq() == old(self).accounts_seq(),
            final(self).receipts == old(self).receipts,
    {
        self.block_height = self.block_height + 1;
        self.block_history.push(block_hash);
        self.update_root_hash();
        proof {
            assert(final(self)@.history =~= old(self)@.history.insert(
                (old(self)@.height + 1) as u64,
                block_hash@,
            ));
            assert(final(self)@.accounts =~= old(self)@.accounts);
        }
        Ok(())
    }

    /// The current state root.
    pub fn root_hash(&self) -> (r: [u8; 32])
        ensures
            r == self.root_hash,
    {
        self.root_hash
    }

    /// The current block height.
    pub fn block_height(&self) -> (r: u64)
        ensures
            r == self.block_height,
    {
        self.block_height
    }

    /// The number of accounts.
    pub fn account_count(&self) -> (r: usize)
        ensures
            r == self.accounts_seq().len(),
    {
        self.accounts.len()
    }

    /// Pre-flight check of a transaction against the current state; returns
    /// the first rule it breaks, if any.
    pub fn validate_transaction(&self, tx: &Transaction) -> (r: Result<(), ConsensusError>)
        requires
            self.wf(),
        ensures
            r is Ok <==> validate_error(self@, *tx) is None,
            r matches Err(e) ==> (e matches ConsensusError::InvalidStateTransition(m)
                && validate_error(self@, *tx) == Some(m@)),
    {
        match tx {
            Transaction::Transfer { from, to, amount, nonce } => {
                let account = match self.get_account(from.as_str()) {
                    Some(a) => a,
                    None => {
                        return Err(account_not_found_error(from.as_str()));
                    },
                };
                if account.nonce != *nonce {
                    return Err(nonce_mismatch_error(account.nonce, *nonce));
                }
                if account.ase_balance < *amount {
                    return Err(insufficient_balance_error(account.ase_balance, *amount));
                }
                if to.as_str().is_empty() {
                    return Err(
                        ConsensusError::InvalidStateTransition(
                            String::from_str("recipient cannot be empty"),
                        ),
                    );
                }
                Ok(())
            },
            Transaction::TechGnosDeploy { sender, nonce, .. } => {
                let account = match self.get_account(sender.as_str()) {
                    Some(a) => a,
                    None => {
                        return Err(account_not_found_error(sender.as_str()));
                    },
                };
                if account.nonce != *nonce {
                    return Err(nonce_mismatch_error(account.nonce, *nonce));
                }
                Ok(())
            },
            Transaction::TechGnosCall { sender, nonce, .. } => {
                let account = match self.get_account(sender.as_str()) {
                    Some(a) => a,
                    None => {
                        return Err(account_not_found_error(sender.as_str()));
                    },
                };
                if account.nonce != *nonce {
                    return Err(nonce_mismatch_error(account.nonce, *nonce));
                }
                Ok(())
            },
            _ => Ok(()),
        }
    }
}

impl Default for State {
    /// An empty state.
    fn default() -> (s: State)
        ensures
            s.wf(),
            s@.accounts == Map::<Seq<char>, AccountM>::empty(),
            s@.height == 0,
            s@.history == Map::<u64, Seq<u8>>::empty(),
    {
        State::new()
    }
}

/// The message of the first rule a transaction breaks against a state, if
/// any: the sender must exist and its nonce must match; a transfer further
/// needs a covering balance and a non-empty recipient. Governance and
/// inheritance claims are accepted as-is.
pub open spec fn validate_error(m: StateM, tx: Transaction) -> Option<Seq<char>> {
    match tx {
        Transaction::Transfer { from, to, amount, nonce } => {
            if !m.accounts.contains_key(from@) {
                Some(account_not_found_msg(from@))
            } else if m.accounts[from@].nonce != nonce {
                Some(nonce_mismatch_msg(m.accounts[from@].nonce, nonce))
            } else if m.accounts[from@].balance < amount {
                Some(insufficient_balance_msg(m.accounts[from@].balance, amount))
            } else if to@.len() == 0 {
                Some("recipient cannot be empty"@)
            } else {
                None
            }
        },
        Transaction::TechGnosDeploy { sender, nonce, .. } => {
            if !m.accounts.contains_key(sender@) {
                Some(account_not_found_msg(sender@))
            } else if m.accounts[sender@].nonce != nonce {
                Some(nonce_mismatch_msg(m.accounts[sender@].nonce, nonce))
            } else {
                None
            }
        },
        Transaction::TechGnosCall { sender, nonce, .. } => {
            if !m.accounts.contains_key(sender@) {
                Some(account_not_found_msg(sender@))
            } else if m.accounts[sender@].nonce != nonce {
                Some(nonce_mismatch_msg(m.accounts[sender@].nonce, nonce))
            } else {
                None
            }
        },
        _ => None,
    }
}


/// The contract address a deployment derives: the sender, a fixed infix, and
/// the decimal block height.
pub open spec fn contract_address(sender: Seq<char>, height: u64) -> Seq<char> {
    sender + "_contract_"@ + crate::decimal::dec_str(height as nat)
}

/// The nonce recorded at an address; zero if the account does not exist.
pub open spec fn nonce_in(m: Map<Seq<char>, AccountM>, a: Seq<char>) -> u64 {
    if m.contains_key(a) {
        m[a].nonce
    } else {
        0
    }
}

/// The account map after the sender's nonce advances by one.
pub open spec fn bump_map(m: Map<Seq<char>, AccountM>, a: Seq<char>) -> Map<Seq<char>, AccountM> {
    let prev = if m.contains_key(a) {
        m[a]
    } else {
        empty_account_m()
    };
    m.insert(a, AccountM { nonce: (prev.nonce + 1) as u64, ..prev })
}

/// The account map after a deployment: code installed at the derived
/// contract address.
pub open spec fn deploy_map(
    m: Map<Seq<char>, AccountM>,
    addr: Seq<char>,
    bytecode: Seq<u8>,
) -> Map<Seq<char>, AccountM> {
    let prev = if m.contains_key(addr) {
        m[addr]
    } else {
        empty_account_m()
    };
    m.insert(addr, AccountM { code: Some(bytecode), ..prev })
}

/// What finalizing one transaction leaves behind: either the new account map
/// or the message of the transfer failure that aborted the block.
pub enum FinStep {
    /// The transaction applied; the new account map.
    Applied(Map<Seq<char>, AccountM>),
    /// A transfer failed with this message.
    Failed(Seq<char>),
}

/// Finalizing one transaction: a transfer moves the tokens (failing on an
/// uncovered amount), a deployment installs code at the derived address,
/// other variants change no balances; every applied transaction then bumps
/// its sender's nonce.
pub open spec fn apply_tx(
    m: Map<Seq<char>, AccountM>,
    height: u64,
    tx: Transaction,
) -> FinStep {
    match tx {
        Transaction::Transfer { from, to, amount, .. } => {
            if !m.contains_key(from@) {
                FinStep::Failed(account_not_found_msg(from@))
            } else if m[from@].balance < amount {
                FinStep::Failed(insufficient_balance_msg(m[from@].balance, amount))
            } else {
                FinStep::Applied(bump_map(transfer_map(m, from@, to@, amount), from@))
            }
        },
        Transaction::TechGnosDeploy { bytecode, sender, .. } => FinStep::Applied(
            bump_map(deploy_map(m, contract_address(sender@, height), bytecode@), sender@),
        ),
        _ => FinStep::Applied(bump_map(m, tx_sender(tx))),
    }
}

/// The arithmetic in one finalized transaction stays within 64 bits: the
/// credited balance fits, and the bumped nonce fits.
pub open spec fn apply_tx_fits(m: Map<Seq<char>, AccountM>, height: u64, tx: Transaction) -> bool {
    match tx {
        Transaction::Transfer { from, to, amount, .. } => {
            m.contains_key(from@) && m[from@].balance >= amount ==> ((from@ != to@
                && m.contains_key(to@) ==> m[to@].balance + amount <= u64::MAX) && nonce_in(
                transfer_map(m, from@, to@, amount),
                from@,
            ) < u64::MAX)
        },
        Transaction::TechGnosDeploy { bytecode, sender, .. } => nonce_in(
            deploy_map(m, contract_address(sender@, height), bytecode@),
            sender@,
        ) < u64::MAX,
        _ => nonce_in(m, tx_sender(tx)) < u64::MAX,
    }
}

/// Finalizing a transaction list in order, stopping at the first failure.
pub open spec fn apply_txs(
    m: Map<Seq<char>, AccountM>,
    height: u64,
    txs: Seq<Transaction>,
) -> FinStep
    decreases txs.len(),
{
    if txs.len() == 0 {
        FinStep::Applied(m)
    } else {
        match apply_tx(m, height, txs[0]) {
            FinStep::Failed(msg) => FinStep::Failed(msg),
            FinStep::Applied(m2) => apply_txs(m2, height, txs.skip(1)),
        }
    }
}

/// The whole finalization stays within 64-bit arithmetic.
pub open spec fn apply_txs_fit(
    m: Map<Seq<char>, AccountM>,
    height: u64,
    txs: Seq<Transaction>,
) -> bool
    decreases txs.len(),
{
    txs.len() == 0 || (apply_tx_fits(m, height, txs[0]) && match apply_tx(m, height, txs[0]) {
        FinStep::Failed(_) => true,
        FinStep::Applied(m2) => apply_txs_fit(m2, height, txs.skip(1)),
    })
}

/// The message of the first transaction in a list that fails pre-flight
/// validation, if any.
pub open spec fn first_validate_error(m: StateM, txs: Seq<Transaction>) -> Option<Seq<char>>
    decreases txs.len(),
{
    if txs.len() == 0 {
        None
    } else if validate_error(m, txs[0]) is Some {
        validate_error(m, txs[0])
    } else {
        first_validate_error(m, txs.skip(1))
    }
}

/// Value-equal copies of the accounts, sharing their order and contents.
fn clone_accounts(v: &Vec<Account>) -> (r: Vec<Account>)
    ensures
        r@.len() == v@.len(),
        forall|i: int|
            0 <= i < v@.len() ==> (#[trigger] r@[i]).address == v@[i].address && acct_m(r@[i])
                == acct_m(v@[i]) && addr_bytes(r@[i]) == addr_bytes(v@[i]),
{
    let n = v.len();
    let mut out: Vec<Account> = Vec::new();
    let mut i: usize = 0;
    while i < n
        invariant
            n == v@.len(),
            i <= n,
            out@.len() == i,
            forall|k: int|
                0 <= k < i ==> (#[trigger] out@[k]).address == v@[k].address && acct_m(out@[k])
                    == acct_m(v@[k]) && addr_bytes(out@[k]) == addr_bytes(v@[k]),
        decreases n - i,
    {
        let a = clone_account(&v[i]);
        out.push(a);
        i = i + 1;
    }
    out
}

/// Two account lists that agree pointwise on address and contents induce the
/// same map and share their invariants.
proof fn lemma_same_accounts(a: Seq<Account>, b: Seq<Account>)
    requires
        a.len() == b.len(),
        forall|i: int|
            0 <= i < a.len() ==> (#[trigger] b[i]).address@ == a[i].address@ && acct_m(b[i])
                == acct_m(a[i]) && addr_bytes(b[i]) == addr_bytes(a[i]),
        distinct_accounts(a),
        sorted_accounts(a),
    ensures
        distinct_accounts(b),
        sorted_accounts(b),
        accts_map(b) == accts_map(a),
{
    assert forall|p: int, q: int| 0 <= p < q < b.len() implies b[p].address@
        != b[q].address@ by {
        assert(a[p].address@ != a[q].address@);
    }
    assert forall|p: int, q: int| 0 <= p < q < b.len() implies bytes_le(
        addr_bytes(b[p]),
        addr_bytes(b[q]),
    ) by {
        assert(bytes_le(addr_bytes(a[p]), addr_bytes(a[q])));
    }
    let m1 = accts_map(b);
    let m2 = accts_map(a);
    assert forall|x: Seq<char>| m1.dom().contains(x) implies m2.dom().contains(x) by {
        let k = addr_idx(b, x);
        assert(a[k].address@ == x);
        assert(has_addr(a, x));
    }
    assert forall|x: Seq<char>| m2.dom().contains(x) implies m1.dom().contains(x) by {
        let k = addr_idx(a, x);
        assert(b[k].address@ == x);
        assert(has_addr(b, x));
    }
    assert forall|x: Seq<char>| m1.dom().contains(x) implies m1[x] == m2[x] by {
        let k = addr_idx(b, x);
        assert(b[k].address@ == x);
        assert(a[k].address@ == x);
        lemma_acct_at(b, k);
        lemma_acct_at(a, k);
    }
    assert(m1 =~= m2);
}

/// Dropping the first account removes exactly its address from the map and
/// keeps the rest sorted and distinct.
proof fn lemma_skip_first(accs: Seq<Account>)
    requires
        distinct_accounts(accs),
        sorted_accounts(accs),
        accs.len() > 0,
    ensures
        distinct_accounts(accs.skip(1)),
        sorted_accounts(accs.skip(1)),
        accts_map(accs.skip(1)) == accts_map(accs).remove(accs[0].address@),
{
    let t = accs.skip(1);
    assert forall|k: int| 0 <= k < t.len() implies t[k] == accs[k + 1] by {}
    assert forall|p: int, q: int| 0 <= p < q < t.len() implies t[p].address@
        != t[q].address@ by {
        assert(accs[p + 1].address@ != accs[q + 1].address@);
    }
    assert forall|p: int, q: int| 0 <= p < q < t.len() implies bytes_le(
        addr_bytes(t[p]),
        addr_bytes(t[q]),
    ) by {
        assert(bytes_le(addr_bytes(accs[p + 1]), addr_bytes(accs[q + 1])));
    }
    let m1 = accts_map(t);
    let m2 = accts_map(accs).remove(accs[0].address@);
    assert forall|x: Seq<char>| m1.dom().contains(x) implies m2.dom().contains(x) by {
        let k = addr_idx(t, x);
        assert(accs[k + 1].address@ == x);
        assert(has_addr(accs, x));
        assert(accs[0].address@ != accs[k + 1].address@);
    }
    assert forall|x: Seq<char>| m2.dom().contains(x) implies m1.dom().contains(x) by {
        let k = addr_idx(accs, x);
        assert(accs[k].address@ == x);
        assert(k != 0);
        assert(t[k - 1].address@ == x);
        assert(has_addr(t, x));
    }
    assert forall|x: Seq<char>| m1.dom().contains(x) implies m1[x] == m2[x] by {
        let k = addr_idx(t, x);
        assert(t[k].address@ == x);
        assert(accs[k + 1].address@ == x);
        lemma_acct_at(t, k);
        lemma_acct_at(accs, k + 1);
    }
    assert(m1 =~= m2);
}

/// Two sorted, duplicate-free account lists that induce the same map agree
/// pointwise on addresses and contents.
proof fn lemma_sorted_unique_seq_equal(a: Seq<Account>, b: Seq<Account>)
    requires
        distinct_accounts(a),
        sorted_accounts(a),
        distinct_accounts(b),
        sorted_accounts(b),
        accts_map(a) == accts_map(b),
    ensures
        a.len() == b.len(),
        forall|i: int|
            0 <= i < a.len() ==> (#[trigger] a[i]).address@ == b[i].address@ && acct_m(a[i])
                == acct_m(b[i]),
    decreases a.len(),
{
    broadcast use vstd::utf8::encode_utf8_decode_utf8;

    if a.len() == 0 {
        if b.len() > 0 {
            lemma_acct_at(b, 0);
            assert(accts_map(a).contains_key(b[0].address@));
        }
    } else if b.len() == 0 {
        lemma_acct_at(a, 0);
        assert(accts_map(b).contains_key(a[0].address@));
    } else {
        lemma_acct_at(a, 0);
        lemma_acct_at(b, 0);
        assert(accts_map(b).contains_key(a[0].address@));
        let j = choose|j: int| 0 <= j < b.len() && #[trigger] b[j].address@ == a[0].address@;
        assert(accts_map(a).contains_key(b[0].address@));
        let i = choose|i: int| 0 <= i < a.len() && #[trigger] a[i].address@ == b[0].address@;
        if j != 0 && i != 0 {
            // each head's bytes bound the other's from below, so they match
            assert(bytes_le(addr_bytes(b[0]), addr_bytes(b[j])));
            assert(bytes_le(addr_bytes(a[0]), addr_bytes(a[i])));
            assert(addr_bytes(b[j]) == addr_bytes(a[0]));
            assert(addr_bytes(a[i]) == addr_bytes(b[0]));
            lemma_bytes_le_antisym(addr_bytes(a[0]), addr_bytes(b[0]));
            assert(decode_utf8(encode_utf8(a[0].address@)) == a[0].address@);
            assert(decode_utf8(encode_utf8(b[0].address@)) == b[0].address@);
        }
        assert(a[0].address@ == b[0].address@);
        assert(acct_m(a[0]) == acct_m(b[0]));
        lemma_skip_first(a);
        lemma_skip_first(b);
        assert(accts_map(a.skip(1)) == accts_map(b.skip(1)));
        lemma_sorted_unique_seq_equal(a.skip(1), b.skip(1));
        assert forall|k: int|
            0 <= k < a.len() implies (#[trigger] a[k]).address@ == b[k].address@ && acct_m(a[k])
            == acct_m(b[k]) by {
            if k > 0 {
                assert(a.skip(1)[k - 1].address@ == b.skip(1)[k - 1].address@);
                assert(acct_m(a.skip(1)[k - 1]) == acct_m(b.skip(1)[k - 1]));
                assert(a.skip(1)[k - 1] == a[k]);
                assert(b.skip(1)[k - 1] == b[k]);
            }
        }
    }
}

/// Account lists that agree pointwise on addresses and contents encode to
/// the same bytes.
proof fn lemma_encoding_pointwise(a: Seq<Account>, b: Seq<Account>)
    requires
        a.len() == b.len(),
        forall|i: int|
            0 <= i < a.len() ==> (#[trigger] a[i]).address@ == b[i].address@ && acct_m(a[i])
                == acct_m(b[i]),
    ensures
        accounts_body(a) == accounts_body(b),
        accounts_encoding(a) == accounts_encoding(b),
    decreases a.len(),
{
    if a.len() == 0 {
    } else {
        assert forall|k: int|
            0 <= k < a.drop_last().len() implies (#[trigger] a.drop_last()[k]).address@
            == b.drop_last()[k].address@ && acct_m(a.drop_last()[k]) == acct_m(
            b.drop_last()[k],
        ) by {
            assert(a[k].address@ == b[k].address@);
            assert(acct_m(a[k]) == acct_m(b[k]));
        }
        lemma_encoding_pointwise(a.drop_last(), b.drop_last());
        let x = a.last();
        let y = b.last();
        assert(x.address@ == y.address@);
        assert(acct_m(x) == acct_m(y));
        assert(x.ase_balance == y.ase_balance);
        assert(x.nonce == y.nonce);
        assert(x.storage_root@ == y.storage_root@);
        match x.code {
            Some(c) => {
                match y.code {
                    Some(d) => {
                        assert(c@ == d@);
                    },
                    None => {
                        assert(false);
                    },
                }
            },
            None => {
                match y.code {
                    Some(_) => {
                        assert(false);
                    },
                    None => {},
                }
            },
        }
        assert(account_bytes(x) == account_bytes(y));
    }
}

/// Canonical serialization: well-formed states holding the same accounts
/// serialize them identically, so they commit to the same state root.
pub proof fn lemma_canonical_state_root(s1: State, s2: State)
    requires
        s1.wf(),
        s2.wf(),
        s1@.accounts == s2@.accounts,
    ensures
        accounts_encoding(s1.accounts_seq()) == accounts_encoding(s2.accounts_seq()),
{
    lemma_sorted_unique_seq_equal(s1.accounts_seq(), s2.accounts_seq());
    lemma_encoding_pointwise(s1.accounts_seq(), s2.accounts_seq());
}

impl State {
    /// A working copy sharing this state's accounts, height, root, and
    /// history (receipts are not carried over).
    pub(crate) fn scratch(&self) -> (w: State)
        requires
            self.wf(),
        ensures
            w.wf(),
            w@.accounts == self@.accounts,
            w@.height == self@.height,
            w@.history == self@.history,
            w.block_height == self.block_height,
            w.root_hash == self.root_hash,
            w.accounts_seq().len() == self.accounts_seq().len(),
    {
        let accounts = clone_accounts(&self.accounts);
        let mut history: Vec<[u8; 32]> = Vec::new();
        let n = self.block_history.len();
        let mut i: usize = 0;
        while i < n
            invariant
                n == self.block_history@.len(),
                i <= n,
                history@ == self.block_history@.subrange(0, i as int),
            decreases n - i,
        {
            history.push(self.block_history[i]);
            proof {
                assert(history@ =~= self.block_history@.subrange(0, i + 1));
            }
            i = i + 1;
        }
        proof {
            assert(history@ =~= self.block_history@);
            lemma_same_accounts(self.accounts@, accounts@);
        }
        let w = State {
            accounts,
            block_height: self.block_height,
            root_hash: self.root_hash,
            block_history: history,
            receipts: Vec::new(),
        };
        proof {
            assert(w@.accounts =~= self@.accounts);
            assert(w@.history =~= self@.history);
        }
        w
    }
}

} // verus!

