//! The virtual-account ledger: per-user wallets across asset kinds.
//!
//! A wallet pairs a user with a native balance store and an ERC-20 store.
//! Wallets are created lazily on first credit and never hold a zero
//! balance. Transfers are atomic: a credit that cannot be applied rolls
//! the matching debit back before the error is surfaced.

use vstd::prelude::*;
use crate::balances::{BalanceError, Balances, GroupedBalances};
use crate::types::{Address, UserId};
use crate::u256::{U256, pow256};

verus! {

/// Failure of a ledger operation.
#[derive(Clone, Copy, Debug, PartialEq, Eq, Structural)]
pub enum WalletError {
    BalanceError(BalanceError),
    NotFound,
}

/// A balance key: the native currency of a chain, or a token on a chain.
#[derive(Clone, Copy, Debug)]
pub enum AssetKey {
    Eth { chain_id: u32 },
    Erc20 { chain_id: u32, token: Address },
}

/// The mathematical reading of a balance key.
pub enum AssetKeyView {
    Eth { chain_id: u32 },
    Erc20 { chain_id: u32, token: Seq<u8> },
}

impl View for AssetKey {
    type V = AssetKeyView;

    open spec fn view(&self) -> AssetKeyView {
        match *self {
            AssetKey::Eth { chain_id } => AssetKeyView::Eth { chain_id },
            AssetKey::Erc20 { chain_id, token } => AssetKeyView::Erc20 {
                chain_id,
                token: token@,
            },
        }
    }
}

/// One user's balances.
pub struct Wallet {
    pub id: UserId,
    pub eth: Balances,
    pub erc20: GroupedBalances,
}

impl Wallet {
    pub open spec fn wf(&self) -> bool {
        self.eth.wf() && self.erc20.wf()
    }

    /// The amount held under `key`; zero when absent.
    pub open spec fn balance_of(&self, key: AssetKeyView) -> nat {
        match key {
            AssetKeyView::Eth { chain_id } => self.eth.balance_of(chain_id),
            AssetKeyView::Erc20 { chain_id, token } => self.erc20.balance_of(chain_id, token),
        }
    }

    /// Is there a stored entry under `key`?
    pub open spec fn has_entry(&self, key: AssetKeyView) -> bool {
        match key {
            AssetKeyView::Eth { chain_id } => self.eth.has_key(chain_id),
            AssetKeyView::Erc20 { chain_id, token } => self.erc20.has_key(chain_id, token),
        }
    }

    pub fn new(id: UserId) -> (r: Wallet)
        ensures
            r.wf(),
            r.id@ == id@,
            forall|k: AssetKeyView| r.balance_of(k) == 0,
    {
        Wallet { id, eth: Balances::new(), erc20: GroupedBalances::new() }
    }

    /// Adds `amount` under `key`; on success returns the new balance.
    pub fn credit(&mut self, key: &AssetKey, amount: U256) -> (r: Result<U256, WalletError>)
        requires
            old(self).wf(),
        ensures
            final(self).wf(),
            final(self).id@ == old(self).id@,
            match r {
                Ok(b) => {
                    &&& old(self).balance_of(key@) + amount.as_nat() < pow256()
                    &&& b.as_nat() == old(self).balance_of(key@) + amount.as_nat()
                    &&& final(self).balance_of(key@) == b.as_nat()
                    &&& forall|k2: AssetKeyView|
                        k2 != key@ ==> final(self).balance_of(k2) == old(self).balance_of(k2)
                },
                Err(e) => {
                    &&& e == WalletError::BalanceError(BalanceError::ArithmeticOverflow)
                    &&& old(self).balance_of(key@) + amount.as_nat() >= pow256()
                    &&& *final(self) == *old(self)
                },
            },
    {
        match key {
            AssetKey::Eth { chain_id } => {
                match self.eth.credit(*chain_id, amount) {
                    Ok(b) => Ok(b),
                    Err(e) => Err(WalletError::BalanceError(e)),
                }
            },
            AssetKey::Erc20 { chain_id, token } => {
                match self.erc20.credit(*chain_id, token, amount) {
                    Ok(b) => Ok(b),
                    Err(e) => Err(WalletError::BalanceError(e)),
                }
            },
        }
    }

    /// Subtracts `amount` under `key`; on success returns the new balance.
    pub fn debit(&mut self, key: &AssetKey, amount: U256) -> (r: Result<U256, WalletError>)
        requires
            old(self).wf(),
        ensures
            final(self).wf(),
            final(self).id@ == old(self).id@,
            match r {
                Ok(b) => {
                    &&& old(self).balance_of(key@) >= amount.as_nat()
                    &&& b.as_nat() == old(self).balance_of(key@) - amount.as_nat()
                    &&& final(self).balance_of(key@) == b.as_nat()
                    &&& forall|k2: AssetKeyView|
                        k2 != key@ ==> final(self).balance_of(k2) == old(self).balance_of(k2)
                },
                Err(e) => {
                    &&& e == WalletError::BalanceError(BalanceError::InsufficientBalance)
                    &&& !old(self).has_entry(key@) || old(self).balance_of(key@)
                        < amount.as_nat()
                    &&& *final(self) == *old(self)
                },
            },
    {
        match key {
            AssetKey::Eth { chain_id } => {
                match self.eth.debit(*chain_id, amount) {
                    Ok(b) => Ok(b),
                    Err(e) => Err(WalletError::BalanceError(e)),
                }
            },
            AssetKey::Erc20 { chain_id, token } => {
                match self.erc20.debit(*chain_id, token, amount) {
                    Ok(b) => Ok(b),
                    Err(e) => Err(WalletError::BalanceError(e)),
                }
            },
        }
    }

    /// The amount held under `key`, when an entry exists.
    pub fn get_balance(&self, key: &AssetKey) -> (r: Option<U256>)
        requires
            self.wf(),
        ensures
            match r {
                Some(v) => v.as_nat() == self.balance_of(key@) && v.as_nat() > 0,
                None => self.balance_of(key@) == 0,
            },
    {
        let got = match key {
            AssetKey::Eth { chain_id } => self.eth.get(*chain_id),
            AssetKey::Erc20 { chain_id, token } => self.erc20.get(*chain_id, token),
        };
        match got {
            Some(v) => {
                if v.is_zero() {
                    None
                } else {
                    Some(v)
                }
            },
            None => None,
        }
    }

    /// A held amount always fits in 256 bits.
    pub proof fn lemma_balance_in_range(&self, key: AssetKeyView)
        ensures
            self.balance_of(key) < pow256(),
    {
        match key {
            AssetKeyView::Eth { chain_id } => self.eth.lemma_balance_in_range(chain_id),
            AssetKeyView::Erc20 { chain_id, token } => self.erc20.lemma_balance_in_range(
                chain_id,
                token,
            ),
        }
    }
}

/// The wallet under `u`, matching from the newest entry.
pub open spec fn find_wallet(s: Seq<Wallet>, u: Seq<u8>) -> Option<Wallet>
    decreases s.len(),
{
    if s.len() == 0 {
        Option::None
    } else if s.last().id@ == u {
        Option::Some(s.last())
    } else {
        find_wallet(s.drop_last(), u)
    }
}

pub open spec fn wallets_wf(s: Seq<Wallet>) -> bool {
    &&& forall|i: int, j: int|
        0 <= i < j < s.len() ==> (#[trigger] s[i]).id@ != (#[trigger] s[j]).id@
    &&& forall|i: int| 0 <= i < s.len() ==> (#[trigger] s[i]).wf()
}

proof fn lemma_fw_absent(s: Seq<Wallet>, u: Seq<u8>)
    requires
        forall|i: int| 0 <= i < s.len() ==> (#[trigger] s[i]).id@ != u,
    ensures
        find_wallet(s, u) is None,
    decreases s.len(),
{
    if s.len() > 0 {
        assert(forall|i: int|
            0 <= i < s.len() - 1 ==> s.drop_last()[i] == #[trigger] s[i]);
        lemma_fw_absent(s.drop_last(), u);
    }
}

proof fn lemma_fw_at(s: Seq<Wallet>, i: int)
    requires
        wallets_wf(s),
        0 <= i < s.len(),
    ensures
        find_wallet(s, s[i].id@) == Option::Some(s[i]),
    decreases s.len(),
{
    if i < s.len() - 1 {
        assert(s.drop_last()[i] == s[i]);
        assert(wallets_wf(s.drop_last())) by {
            assert(forall|x: int|
                0 <= x < s.len() - 1 ==> s.drop_last()[x] == #[trigger] s[x]);
        }
        lemma_fw_at(s.drop_last(), i);
    }
}

/// Replacing the wallet at `i` by one with the same identity moves only
/// that user's view.
proof fn lemma_fw_update(s: Seq<Wallet>, i: int, w: Wallet, u: Seq<u8>)
    requires
        wallets_wf(s),
        0 <= i < s.len(),
        w.id@ == s[i].id@,
        w.wf(),
    ensures
        wallets_wf(s.update(i, w)),
        find_wallet(s.update(i, w), u) == if u == w.id@ {
            Option::Some(w)
        } else {
            find_wallet(s, u)
        },
    decreases s.len(),
{
    let t = s.update(i, w);
    assert(forall|x: int| 0 <= x < s.len() && x != i ==> t[x] == #[trigger] s[x]);
    assert(t[i] == w);
    assert(wallets_wf(t));
    if i == s.len() - 1 {
        assert(t.drop_last() =~= s.drop_last());
        if u != w.id@ {
            assert(find_wallet(t, u) == find_wallet(s.drop_last(), u));
        }
    } else {
        assert(t.drop_last() =~= s.drop_last().update(i, w));
        assert(wallets_wf(s.drop_last())) by {
            assert(forall|x: int|
                0 <= x < s.len() - 1 ==> s.drop_last()[x] == #[trigger] s[x]);
        }
        lemma_fw_update(s.drop_last(), i, w, u);
        assert(t.last() == s.last());
    }
}

/// The ledger: every user's wallet.
pub struct Wallets {
    pub wallets: Vec<Wallet>,
}

impl Wallets {
    pub open spec fn wf(&self) -> bool {
        wallets_wf(self.wallets@)
    }

    pub open spec fn has_wallet(&self, u: Seq<u8>) -> bool {
        find_wallet(self.wallets@, u) is Some
    }

    /// The amount `u` holds under `key`; zero at every absent level.
    pub open spec fn balance_of(&self, u: Seq<u8>, key: AssetKeyView) -> nat {
        match find_wallet(self.wallets@, u) {
            Option::Some(w) => w.balance_of(key),
            Option::None => 0,
        }
    }

    /// Does `u` hold a stored entry under `key`?
    pub open spec fn has_entry(&self, u: Seq<u8>, key: AssetKeyView) -> bool {
        match find_wallet(self.wallets@, u) {
            Option::Some(w) => w.has_entry(key),
            Option::None => false,
        }
    }

    /// A held amount always fits in 256 bits.
    pub proof fn lemma_balance_in_range(&self, u: Seq<u8>, key: AssetKeyView)
        ensures
            self.balance_of(u, key) < pow256(),
    {
        match find_wallet(self.wallets@, u) {
            Option::Some(w) => w.lemma_balance_in_range(key),
            Option::None => {},
        }
    }

    pub fn new() -> (r: Wallets)
        ensures
            r.wf(),
            forall|u: Seq<u8>, k: AssetKeyView| r.balance_of(u, k) == 0,
            forall|u: Seq<u8>| !r.has_wallet(u),
    {
        Wallets { wallets: Vec::new() }
    }

    fn find(&self, id: &UserId) -> (r: Option<usize>)
        ensures
            match r {
                Some(i) => i < self.wallets@.len() && self.wallets@[i as int].id@ == id@,
                None => forall|j: int|
                    0 <= j < self.wallets@.len() ==> (#[trigger] self.wallets@[j]).id@ != id@,
            },
    {
        let mut i: usize = 0;
        let n = self.wallets.len();
        while i < n
            invariant
                i <= n,
                n == self.wallets@.len(),
                forall|j: int| 0 <= j < i ==> (#[trigger] self.wallets@[j]).id@ != id@,
            decreases n - i,
        {
            let hit = self.wallets[i].id.eq_user(id);
            if hit {
                return Some(i);
            }
            i += 1;
        }
        None
    }

    /// Does `id` have a wallet?
    pub fn exists_wallet(&self, id: &UserId) -> (r: bool)
        requires
            self.wf(),
        ensures
            r == self.has_wallet(id@),
    {
        match self.find(id) {
            Some(i) => {
                proof {
                    lemma_fw_at(self.wallets@, i as int);
                }
                true
            },
            None => {
                proof {
                    lemma_fw_absent(self.wallets@, id@);
                }
                false
            },
        }
    }

    /// The wallet of `id`, when one exists.
    pub fn get(&self, id: &UserId) -> (r: Option<&Wallet>)
        requires
            self.wf(),
        ensures
            match r {
                Some(w) => find_wallet(self.wallets@, id@) == Option::Some(*w),
                None => !self.has_wallet(id@),
            },
    {
        match self.find(id) {
            Some(i) => {
                proof {
                    lemma_fw_at(self.wallets@, i as int);
                }
                Some(&self.wallets[i])
            },
            None => {
                proof {
                    lemma_fw_absent(self.wallets@, id@);
                }
                None
            },
        }
    }

    /// Adds a wallet for a user the ledger does not know yet.
    pub fn insert(&mut self, wallet: Wallet)
        requires
            old(self).wf(),
            wallet.wf(),
            !old(self).has_wallet(wallet.id@),
        ensures
            final(self).wf(),
            final(self).has_wallet(wallet.id@),
            forall|k: AssetKeyView|
                final(self).balance_of(wallet.id@, k) == wallet.balance_of(k),
            forall|u: Seq<u8>, k: AssetKeyView|
                u != wallet.id@ ==> final(self).balance_of(u, k) == old(self).balance_of(u, k),
    {
        let ghost pre = self.wallets@;
        let ghost id = wallet.id@;
        self.wallets.push(wallet);
        proof {
            lemma_fw_push(pre, self.wallets@.last(), id);
        }
    }

    /// Creates an empty wallet for `id` if none exists yet.
    pub fn create_default(&mut self, id: &UserId)
        requires
            old(self).wf(),
        ensures
            final(self).wf(),
            final(self).has_wallet(id@),
            forall|u: Seq<u8>, k: AssetKeyView|
                final(self).balance_of(u, k) == old(self).balance_of(u, k),
            forall|u: Seq<u8>|
                u != id@ ==> final(self).has_wallet(u) == old(self).has_wallet(u),
    {
        match self.find(id) {
            Some(i) => {
                proof {
                    lemma_fw_at(self.wallets@, i as int);
                }
            },
            None => {
                proof {
                    lemma_fw_absent(self.wallets@, id@);
                }
                let ghost pre = self.wallets@;
                let w = Wallet::new(UserId { bytes: clone_bytes(&id.bytes) });
                self.wallets.push(w);
                proof {
                    lemma_fw_push(pre, w, id@);
                }
            },
        }
    }

    /// Adds `amount` for `wallet` under `key`, creating the wallet lazily.
    /// On failure the ledger is unchanged.
    pub fn credit(&mut self, wallet: &UserId, key: &AssetKey, amount: U256) -> (r: Result<
        (),
        WalletError,
    >)
        requires
            old(self).wf(),
        ensures
            final(self).wf(),
            match r {
                Ok(()) => {
                    &&& old(self).balance_of(wallet@, key@) + amount.as_nat() < pow256()
                    &&& final(self).balance_of(wallet@, key@) == old(self).balance_of(
                        wallet@,
                        key@,
                    ) + amount.as_nat()
                    &&& forall|u: Seq<u8>, k: AssetKeyView|
                        !(u == wallet@ && k == key@) ==> final(self).balance_of(u, k) == old(self).balance_of(u, k)
                    &&& final(self).has_wallet(wallet@)
                    &&& forall|u: Seq<u8>|
                        u != wallet@ ==> final(self).has_wallet(u) == old(self).has_wallet(u)
                },
                Err(e) => {
                    &&& e == WalletError::BalanceError(BalanceError::ArithmeticOverflow)
                    &&& old(self).balance_of(wallet@, key@) + amount.as_nat() >= pow256()
                    &&& forall|u: Seq<u8>, k: AssetKeyView|
                        final(self).balance_of(u, k) == old(self).balance_of(u, k)
                    &&& forall|u: Seq<u8>| final(self).has_wallet(u) == old(self).has_wallet(u)
                },
            },
    {
        match self.find(wallet) {
            Some(i) => {
                proof {
                    lemma_fw_at(self.wallets@, i as int);
                }
                let ghost pre = self.wallets@;
                let mut w = self.wallets.remove(i);
                let res = w.credit(key, amount);
                self.wallets.insert(i, w);
                proof {
                    assert(self.wallets@ =~= pre.update(i as int, w));
                    assert forall|u: Seq<u8>| true implies find_wallet(self.wallets@, u) == (
                    if u == w.id@ {
                        Option::Some(w)
                    } else {
                        find_wallet(pre, u)
                    }) by {
                        lemma_fw_update(pre, i as int, w, u);
                    }
                }
                match res {
                    Ok(_) => Ok(()),
                    Err(e) => {
                        proof {
                            assert(self.wallets@ =~= pre);
                        }
                        Err(e)
                    },
                }
            },
            None => {
                proof {
                    lemma_fw_absent(self.wallets@, wallet@);
                }
                let mut w = Wallet::new(UserId { bytes: clone_bytes(&wallet.bytes) });
                let res = w.credit(key, amount);
                proof {
                    assert(res is Ok);
                }
                let ghost pre = self.wallets@;
                self.wallets.push(w);
                proof {
                    lemma_fw_push(pre, w, wallet@);
                }
                Ok(())
            },
        }
    }

    /// Subtracts `amount` from `wallet` under `key`. Fails with
    /// `NotFound` when the user has no wallet; on failure the ledger is
    /// unchanged.
    pub fn debit(&mut self, wallet: &UserId, key: &AssetKey, amount: U256) -> (r: Result<
        (),
        WalletError,
    >)
        requires
            old(self).wf(),
        ensures
            final(self).wf(),
            match r {
                Ok(()) => {
                    &&& old(self).has_wallet(wallet@)
                    &&& old(self).balance_of(wallet@, key@) >= amount.as_nat()
                    &&& final(self).balance_of(wallet@, key@) == old(self).balance_of(
                        wallet@,
                        key@,
                    ) - amount.as_nat()
                    &&& forall|u: Seq<u8>, k: AssetKeyView|
                        !(u == wallet@ && k == key@) ==> final(self).balance_of(u, k) == old(self).balance_of(u, k)
                    &&& forall|u: Seq<u8>|
                        final(self).has_wallet(u) == old(self).has_wallet(u)
                },
                Err(WalletError::NotFound) => {
                    &&& !old(self).has_wallet(wallet@)
                    &&& *final(self) == *old(self)
                },
                Err(WalletError::BalanceError(e)) => {
                    &&& e == BalanceError::InsufficientBalance
                    &&& old(self).has_wallet(wallet@)
                    &&& !old(self).has_entry(wallet@, key@) || old(self).balance_of(wallet@, key@)
                        < amount.as_nat()
                    &&& forall|u: Seq<u8>, k: AssetKeyView|
                        final(self).balance_of(u, k) == old(self).balance_of(u, k)
                    &&& forall|u: Seq<u8>| final(self).has_wallet(u) == old(self).has_wallet(u)
                },
            },
    {
        match self.find(wallet) {
            Some(i) => {
                proof {
                    lemma_fw_at(self.wallets@, i as int);
                }
                let ghost pre = self.wallets@;
                let mut w = self.wallets.remove(i);
                let res = w.debit(key, amount);
                self.wallets.insert(i, w);
                proof {
                    assert(self.wallets@ =~= pre.update(i as int, w));
                    assert forall|u: Seq<u8>| true implies find_wallet(self.wallets@, u) == (
                    if u == w.id@ {
                        Option::Some(w)
                    } else {
                        find_wallet(pre, u)
                    }) by {
                        lemma_fw_update(pre, i as int, w, u);
                    }
                }
                match res {
                    Ok(_) => Ok(()),
                    Err(e) => {
                        proof {
                            assert(self.wallets@ =~= pre);
                        }
                        Err(e)
                    },
                }
            },
            None => {
                proof {
                    lemma_fw_absent(self.wallets@, wallet@);
                }
                Err(WalletError::NotFound)
            },
        }
    }

    /// Moves `amount` from `from` to `to` under `key`. When the credit
    /// side fails, the debit is rolled back before the error returns, so
    /// a failed transfer leaves every balance unchanged.
    pub fn transfer(&mut self, from: &UserId, to: &UserId, key: &AssetKey, amount: U256) -> (r:
        Result<(), WalletError>)
        requires
            old(self).wf(),
        ensures
            final(self).wf(),
            match r {
                Ok(()) => {
                    &&& old(self).balance_of(from@, key@) >= amount.as_nat()
                    &&& from@ != to@ ==> {
                        &&& old(self).balance_of(to@, key@) + amount.as_nat() < pow256()
                        &&& final(self).balance_of(from@, key@) == old(self).balance_of(
                            from@,
                            key@,
                        ) - amount.as_nat()
                        &&& final(self).balance_of(to@, key@) == old(self).balance_of(to@, key@)
                            + amount.as_nat()
                    }
                    &&& from@ == to@ ==> final(self).balance_of(from@, key@) == old(self).balance_of(from@, key@)
                    &&& forall|u: Seq<u8>, k: AssetKeyView|
                        !((u == from@ || u == to@) && k == key@) ==> final(self).balance_of(u, k)
                            == old(self).balance_of(u, k)
                },
                Err(e) => {
                    &&& forall|u: Seq<u8>, k: AssetKeyView|
                        final(self).balance_of(u, k) == old(self).balance_of(u, k)
                    &&& (e == WalletError::NotFound && !old(self).has_wallet(from@)) || (e
                        == WalletError::BalanceError(BalanceError::InsufficientBalance) && old(self).has_wallet(from@) && (!old(self).has_entry(from@, key@) || old(self).balance_of(from@, key@)
                        < amount.as_nat())) || (e == WalletError::BalanceError(
                        BalanceError::ArithmeticOverflow,
                    ) && from@ != to@ && old(self).balance_of(to@, key@) + amount.as_nat()
                        >= pow256())
                },
            },
    {
        proof {
            old(self).lemma_balance_in_range(from@, key@);
        }
        if let Err(e) = self.debit(from, key, amount) {
            return Err(e);
        }
        match self.credit(to, key, amount) {
            Ok(()) => Ok(()),
            Err(e) => {
                let back = self.credit(from, key, amount);
                proof {
                    assert(back is Ok);
                }
                Err(e)
            },
        }
    }

    /// The amount `wallet` holds under `key`, when any is stored.
    pub fn get_balance(&self, wallet: &UserId, key: &AssetKey) -> (r: Option<U256>)
        requires
            self.wf(),
        ensures
            match r {
                Some(v) => v.as_nat() == self.balance_of(wallet@, key@) && v.as_nat() > 0,
                None => self.balance_of(wallet@, key@) == 0,
            },
    {
        match self.find(wallet) {
            Some(i) => {
                proof {
                    lemma_fw_at(self.wallets@, i as int);
                }
                self.wallets[i].get_balance(key)
            },
            None => {
                proof {
                    lemma_fw_absent(self.wallets@, wallet@);
                }
                None
            },
        }
    }

    /// The amount `wallet` holds under `key`; zero at every absent level.
    pub fn get_balance_or_default(&self, wallet: &UserId, key: &AssetKey) -> (r: U256)
        requires
            self.wf(),
        ensures
            r.as_nat() == self.balance_of(wallet@, key@),
    {
        match self.get_balance(wallet, key) {
            Some(v) => v,
            None => U256::zero(),
        }
    }
}

/// Appending a wallet for a fresh user adds exactly that user's view.
proof fn lemma_fw_push(s: Seq<Wallet>, w: Wallet, u: Seq<u8>)
    requires
        wallets_wf(s),
        find_wallet(s, w.id@) is None,
        w.wf(),
    ensures
        wallets_wf(s.push(w)),
        find_wallet(s.push(w), w.id@) == Option::Some(w),
        forall|v: Seq<u8>| v != w.id@ ==> find_wallet(s.push(w), v) == find_wallet(s, v),
        forall|v: Seq<u8>|
            v != w.id@ ==> (find_wallet(s.push(w), v) is Some) == (find_wallet(s, v) is Some),
{
    let t = s.push(w);
    assert(forall|x: int| 0 <= x < s.len() ==> t[x] == #[trigger] s[x]);
    assert(t[s.len() as int] == w);
    assert(t.last() == w);
    assert(t.drop_last() =~= s);
    assert forall|i: int| 0 <= i < s.len() implies (#[trigger] s[i]).id@ != w.id@ by {
        if s[i].id@ == w.id@ {
            lemma_fw_at(s, i);
        }
    }
    assert(wallets_wf(t));
}

/// A copy of raw identity bytes.
fn clone_bytes(b: &Vec<u8>) -> (r: Vec<u8>)
    ensures
        r@ == b@,
{
    let mut out: Vec<u8> = Vec::new();
    let mut i: usize = 0;
    while i < b.len()
        invariant
            i <= b@.len(),
            out@ =~= b@.take(i as int),
        decreases b@.len() - i,
    {
        out.push(b[i]);
        proof {
            assert(out@ =~= b@.take(i + 1));
        }
        i += 1;
    }
    proof {
        assert(b@.take(b@.len() as int) =~= b@);
    }
    out
}

/// The ERC-20 balance of a user, zero at every absent level.
pub fn get_erc20_balance(s: &crate::state::State, wallet: &UserId, network_id: u32, token: &Address) -> (r: U256)
    requires
        s.wf(),
    ensures
        r.as_nat() == s.wallets.balance_of(
            wallet@,
            AssetKeyView::Erc20 { chain_id: network_id, token: token@ },
        ),
{
    s.wallets.get_balance_or_default(
        wallet,
        &AssetKey::Erc20 { chain_id: network_id, token: *token },
    )
}

/// The native balance of a user, zero at every absent level.
pub fn get_eth_balance(s: &crate::state::State, wallet: &UserId, network_id: u32) -> (r: U256)
    requires
        s.wf(),
    ensures
        r.as_nat() == s.wallets.balance_of(wallet@, AssetKeyView::Eth { chain_id: network_id }),
{
    s.wallets.get_balance_or_default(wallet, &AssetKey::Eth { chain_id: network_id })
}

/// An internal ERC-20 transfer at zero on-chain cost.
pub fn transfer_erc20(
    s: &mut crate::state::State,
    from: &UserId,
    to: &UserId,
    network_id: u32,
    token: &Address,
    amount: U256,
) -> (r: Result<(), crate::HarmonizeError>)
    requires
        old(s).wf(),
    ensures
        final(s).wf(),
        final(s).networks == old(s).networks,
        ({
            let key = AssetKeyView::Erc20 { chain_id: network_id, token: token@ };
            let pre = old(s).wallets;
            let post = final(s).wallets;
            match r {
                Ok(()) => {
                    &&& pre.balance_of(from@, key) >= amount.as_nat()
                    &&& from@ != to@ ==> post.balance_of(from@, key) == pre.balance_of(from@, key)
                        - amount.as_nat() && post.balance_of(to@, key) == pre.balance_of(to@, key)
                        + amount.as_nat()
                    &&& from@ == to@ ==> post.balance_of(from@, key) == pre.balance_of(from@, key)
                    &&& forall|u: Seq<u8>, k: AssetKeyView|
                        !((u == from@ || u == to@) && k == key) ==> post.balance_of(u, k)
                            == pre.balance_of(u, k)
                },
                Err(crate::HarmonizeError::WalletError(e)) => {
                    &&& forall|u: Seq<u8>, k: AssetKeyView|
                        post.balance_of(u, k) == pre.balance_of(u, k)
                    &&& (e == WalletError::NotFound && !pre.has_wallet(from@)) || (e
                        == WalletError::BalanceError(BalanceError::InsufficientBalance)
                        && pre.has_wallet(from@) && (!pre.has_entry(from@, key)
                        || pre.balance_of(from@, key) < amount.as_nat())) || (e
                        == WalletError::BalanceError(BalanceError::ArithmeticOverflow) && from@
                        != to@ && pre.balance_of(to@, key) + amount.as_nat() >= pow256())
                },
                Err(crate::HarmonizeError::SignInError(_)) => false,
            }
        }),
{
    let key = AssetKey::Erc20 { chain_id: network_id, token: *token };
    match s.wallets.transfer(from, to, &key, amount) {
        Ok(()) => Ok(()),
        Err(e) => Err(crate::HarmonizeError::WalletError(e)),
    }
}

/// An internal native-currency transfer at zero on-chain cost.
pub fn transfer_eth(
    s: &mut crate::state::State,
    from: &UserId,
    to: &UserId,
    network_id: u32,
    amount: U256,
) -> (r: Result<(), crate::HarmonizeError>)
    requires
        old(s).wf(),
    ensures
        final(s).wf(),
        final(s).networks == old(s).networks,
        ({
            let key = AssetKeyView::Eth { chain_id: network_id };
            let pre = old(s).wallets;
            let post = final(s).wallets;
            match r {
                Ok(()) => {
                    &&& pre.balance_of(from@, key) >= amount.as_nat()
                    &&& from@ != to@ ==> post.balance_of(from@, key) == pre.balance_of(from@, key)
                        - amount.as_nat() && post.balance_of(to@, key) == pre.balance_of(to@, key)
                        + amount.as_nat()
                    &&& from@ == to@ ==> post.balance_of(from@, key) == pre.balance_of(from@, key)
                    &&& forall|u: Seq<u8>, k: AssetKeyView|
                        !((u == from@ || u == to@) && k == key) ==> post.balance_of(u, k)
                            == pre.balance_of(u, k)
                },
                Err(crate::HarmonizeError::WalletError(e)) => {
                    &&& forall|u: Seq<u8>, k: AssetKeyView|
                        post.balance_of(u, k) == pre.balance_of(u, k)
                    &&& (e == WalletError::NotFound && !pre.has_wallet(from@)) || (e
                        == WalletError::BalanceError(BalanceError::InsufficientBalance)
                        && pre.has_wallet(from@) && (!pre.has_entry(from@, key)
                        || pre.balance_of(from@, key) < amount.as_nat())) || (e
                        == WalletError::BalanceError(BalanceError::ArithmeticOverflow) && from@
                        != to@ && pre.balance_of(to@, key) + amount.as_nat() >= pow256())
                },
                Err(crate::HarmonizeError::SignInError(_)) => false,
            }
        }),
{
    let key = AssetKey::Eth { chain_id: network_id };
    match s.wallets.transfer(from, to, &key, amount) {
        Ok(()) => Ok(()),
        Err(e) => Err(crate::HarmonizeError::WalletError(e)),
    }
}

} // verus!
