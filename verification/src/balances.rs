//! Keyed books of non-negative amounts.
//!
//! Two shapes serve the ledger: a flat store keyed by chain id for native
//! balances, and a grouped store keyed by chain id and token address for
//! ERC-20 balances. Every stored amount is strictly positive: a balance
//! that reaches zero on debit is removed. The view of a store is the total
//! function from keys to amounts, zero for absent keys.

use vstd::prelude::*;
use crate::u256::{U256, pow256};

verus! {

/// Failure of a single store operation.
#[derive(Clone, Copy, Debug, PartialEq, Eq, Structural)]
pub enum BalanceError {
    ArithmeticOverflow,
    InsufficientBalance,
    NotFound,
}

/// Moves `amount` from `from` to `to`; on any failure both are unchanged.
pub fn safe_transfer(from: &mut U256, to: &mut U256, amount: U256) -> (r: Result<
    (),
    BalanceError,
>)
    ensures
        match r {
            Ok(()) => {
                &&& old(from).as_nat() >= amount.as_nat()
                &&& old(to).as_nat() + amount.as_nat() < pow256()
                &&& final(from).as_nat() == old(from).as_nat() - amount.as_nat()
                &&& final(to).as_nat() == old(to).as_nat() + amount.as_nat()
            },
            Err(BalanceError::InsufficientBalance) => {
                &&& old(from).as_nat() < amount.as_nat()
                &&& *final(from) == *old(from) && *final(to) == *old(to)
            },
            Err(BalanceError::ArithmeticOverflow) => {
                &&& old(from).as_nat() >= amount.as_nat()
                &&& old(to).as_nat() + amount.as_nat() >= pow256()
                &&& *final(from) == *old(from) && *final(to) == *old(to)
            },
            Err(BalanceError::NotFound) => false,
        },
{
    if from.lt(&amount) {
        return Err(BalanceError::InsufficientBalance);
    }
    match to.checked_add(&amount) {
        Some(t) => {
            *to = t;
            *from = from.sub(&amount);
            Ok(())
        },
        None => Err(BalanceError::ArithmeticOverflow),
    }
}

/// A flat store: chain id to amount.
pub struct Balances {
    pub entries: Vec<(u32, U256)>,
}

/// The amount under `k`, matching from the newest entry; 0 when absent.
pub open spec fn flat_get(s: Seq<(u32, U256)>, k: u32) -> nat
    decreases s.len(),
{
    if s.len() == 0 {
        0
    } else if s.last().0 == k {
        s.last().1.as_nat()
    } else {
        flat_get(s.drop_last(), k)
    }
}

pub open spec fn flat_has(s: Seq<(u32, U256)>, k: u32) -> bool {
    exists|i: int| 0 <= i < s.len() && s[i].0 == k
}

pub open spec fn flat_wf(s: Seq<(u32, U256)>) -> bool {
    &&& forall|i: int, j: int| 0 <= i < j < s.len() ==> (#[trigger] s[i]).0 != (#[trigger] s[j]).0
    &&& forall|i: int| 0 <= i < s.len() ==> (#[trigger] s[i]).1.as_nat() > 0
}

/// A store without `q` reads zero under `q`.
proof fn lemma_flat_get_absent(s: Seq<(u32, U256)>, q: u32)
    requires
        !flat_has(s, q),
    ensures
        flat_get(s, q) == 0,
    decreases s.len(),
{
    if s.len() > 0 {
        assert(forall|i: int|
            0 <= i < s.len() - 1 ==> s.drop_last()[i] == #[trigger] s[i]);
        lemma_flat_get_absent(s.drop_last(), q);
    }
}

/// In a well-formed store the entry under `q` carries the read amount.
proof fn lemma_flat_get_at(s: Seq<(u32, U256)>, i: int)
    requires
        flat_wf(s),
        0 <= i < s.len(),
    ensures
        flat_get(s, s[i].0) == s[i].1.as_nat(),
        flat_has(s, s[i].0),
    decreases s.len(),
{
    if i < s.len() - 1 {
        assert(s.drop_last()[i] == s[i]);
        assert(flat_wf(s.drop_last())) by {
            assert(forall|x: int|
                0 <= x < s.len() - 1 ==> s.drop_last()[x] == #[trigger] s[x]);
        }
        lemma_flat_get_at(s.drop_last(), i);
    }
}

/// Removing the entry at `i` zeroes its key and touches no other.
proof fn lemma_flat_get_remove(s: Seq<(u32, U256)>, i: int, q: u32)
    requires
        flat_wf(s),
        0 <= i < s.len(),
    ensures
        flat_wf(s.remove(i)),
        flat_get(s.remove(i), q) == if q == s[i].0 {
            0
        } else {
            flat_get(s, q)
        },
        !flat_has(s.remove(i), s[i].0),
        q != s[i].0 ==> flat_has(s.remove(i), q) == flat_has(s, q),
    decreases s.len(),
{
    let t = s.remove(i);
    assert(forall|x: int| 0 <= x < i ==> t[x] == #[trigger] s[x]);
    assert(forall|x: int| i <= x < t.len() ==> t[x] == #[trigger] s[x + 1]);
    assert(flat_wf(t));
    assert(!flat_has(t, s[i].0));
    lemma_flat_get_absent(t, s[i].0);
    if q != s[i].0 && flat_has(t, q) {
        let w = choose|w: int| 0 <= w < t.len() && t[w].0 == q;
        if w < i {
            assert(s[w].0 == q);
        } else {
            assert(s[w + 1].0 == q);
        }
    }
    if q != s[i].0 {
        if flat_has(s, q) {
            let w = choose|w: int| 0 <= w < s.len() && s[w].0 == q;
            lemma_flat_get_at(s, w);
            if w < i {
                lemma_flat_get_at(t, w);
            } else {
                lemma_flat_get_at(t, w - 1);
            }
        } else {
            lemma_flat_get_absent(s, q);
            assert(!flat_has(t, q));
            lemma_flat_get_absent(t, q);
        }
    }
}

impl Balances {
    pub open spec fn wf(&self) -> bool {
        flat_wf(self.entries@)
    }

    /// The amount stored under `k`; zero when absent.
    pub open spec fn balance_of(&self, k: u32) -> nat {
        flat_get(self.entries@, k)
    }

    pub open spec fn has_key(&self, k: u32) -> bool {
        flat_has(self.entries@, k)
    }

    /// A stored balance never exceeds the 256-bit range.
    pub proof fn lemma_balance_in_range(&self, k: u32)
        ensures
            self.balance_of(k) < pow256(),
        decreases self.entries@.len(),
    {
        lemma_flat_get_below(self.entries@, k);
    }

    pub fn new() -> (r: Balances)
        ensures
            r.wf(),
            forall|k: u32| r.balance_of(k) == 0,
            forall|k: u32| !r.has_key(k),
    {
        Balances { entries: Vec::new() }
    }

    /// The index of `k`'s entry.
    fn find(&self, k: u32) -> (r: Option<usize>)
        ensures
            match r {
                Some(i) => i < self.entries@.len() && self.entries@[i as int].0 == k,
                None => !self.has_key(k),
            },
    {
        let mut i: usize = 0;
        let n = self.entries.len();
        while i < n
            invariant
                i <= n,
                n == self.entries@.len(),
                forall|j: int| 0 <= j < i ==> self.entries@[j].0 != k,
            decreases n - i,
        {
            if self.entries[i].0 == k {
                return Some(i);
            }
            i += 1;
        }
        None
    }

    /// The stored amount under `k`, when an entry exists.
    pub fn get(&self, k: u32) -> (r: Option<U256>)
        requires
            self.wf(),
        ensures
            match r {
                Some(v) => self.has_key(k) && v.as_nat() == self.balance_of(k),
                None => !self.has_key(k) && self.balance_of(k) == 0,
            },
    {
        match self.find(k) {
            Some(i) => {
                proof {
                    lemma_flat_get_at(self.entries@, i as int);
                }
                Some(self.entries[i].1)
            },
            None => {
                proof {
                    lemma_flat_get_absent(self.entries@, k);
                }
                None
            },
        }
    }

    /// Adds `amount` under `k`, creating the entry as needed; on success
    /// returns the new balance. Fails only when the sum does not fit.
    pub fn credit(&mut self, k: u32, amount: U256) -> (r: Result<U256, BalanceError>)
        requires
            old(self).wf(),
        ensures
            final(self).wf(),
            match r {
                Ok(b) => {
                    &&& old(self).balance_of(k) + amount.as_nat() < pow256()
                    &&& b.as_nat() == old(self).balance_of(k) + amount.as_nat()
                    &&& final(self).balance_of(k) == b.as_nat()
                    &&& forall|q: u32| q != k ==> final(self).balance_of(q) == old(self).balance_of(q)
                    &&& forall|q: u32| q != k ==> final(self).has_key(q) == old(self).has_key(q)
                    &&& final(self).has_key(k) == (b.as_nat() > 0)
                },
                Err(e) => {
                    &&& e == BalanceError::ArithmeticOverflow
                    &&& old(self).balance_of(k) + amount.as_nat() >= pow256()
                    &&& *final(self) == *old(self)
                },
            },
    {
        match self.find(k) {
            Some(i) => {
                proof {
                    lemma_flat_get_at(self.entries@, i as int);
                }
                let cur = self.entries[i].1;
                match cur.checked_add(&amount) {
                    Some(nb) => {
                        proof {
                            assert forall|q: u32| q != k implies flat_get(
                                self.entries@.remove(i as int),
                                q,
                            ) == flat_get(self.entries@, q) && flat_has(
                                self.entries@.remove(i as int),
                                q,
                            ) == flat_has(self.entries@, q) by {
                                lemma_flat_get_remove(self.entries@, i as int, q);
                            }
                            lemma_flat_get_remove(self.entries@, i as int, k);
                        }
                        let ghost mid = self.entries@.remove(i as int);
                        self.entries.remove(i);
                        self.entries.push((k, nb));
                        proof {
                            assert(self.entries@ =~= mid.push((k, nb)));
                            lemma_flat_push_wf(mid, k, nb);
                        }
                        Ok(nb)
                    },
                    None => Err(BalanceError::ArithmeticOverflow),
                }
            },
            None => {
                proof {
                    lemma_flat_get_absent(self.entries@, k);
                }
                if amount.is_zero() {
                    proof {
                        assert(!self.has_key(k));
                    }
                    Ok(U256::zero())
                } else {
                    let ghost pre = self.entries@;
                    self.entries.push((k, amount));
                    proof {
                        assert(self.entries@ =~= pre.push((k, amount)));
                        lemma_flat_push_wf(pre, k, amount);
                    }
                    Ok(amount)
                }
            },
        }
    }

    /// Subtracts `amount` under `k`; the entry is removed when the balance
    /// reaches zero. Fails when the key is absent or the balance is short.
    pub fn debit(&mut self, k: u32, amount: U256) -> (r: Result<U256, BalanceError>)
        requires
            old(self).wf(),
        ensures
            final(self).wf(),
            match r {
                Ok(b) => {
                    &&& old(self).has_key(k)
                    &&& old(self).balance_of(k) >= amount.as_nat()
                    &&& b.as_nat() == old(self).balance_of(k) - amount.as_nat()
                    &&& final(self).balance_of(k) == b.as_nat()
                    &&& forall|q: u32| q != k ==> final(self).balance_of(q) == old(self).balance_of(q)
                    &&& forall|q: u32| q != k ==> final(self).has_key(q) == old(self).has_key(q)
                    &&& final(self).has_key(k) == (b.as_nat() > 0)
                },
                Err(e) => {
                    &&& e == BalanceError::InsufficientBalance
                    &&& !old(self).has_key(k) || old(self).balance_of(k) < amount.as_nat()
                    &&& *final(self) == *old(self)
                },
            },
    {
        match self.find(k) {
            Some(i) => {
                proof {
                    lemma_flat_get_at(self.entries@, i as int);
                }
                let cur = self.entries[i].1;
                if cur.lt(&amount) {
                    return Err(BalanceError::InsufficientBalance);
                }
                let nb = cur.sub(&amount);
                proof {
                    assert forall|q: u32| q != k implies flat_get(
                        self.entries@.remove(i as int),
                        q,
                    ) == flat_get(self.entries@, q) && flat_has(
                        self.entries@.remove(i as int),
                        q,
                    ) == flat_has(self.entries@, q) by {
                        lemma_flat_get_remove(self.entries@, i as int, q);
                    }
                    lemma_flat_get_remove(self.entries@, i as int, k);
                }
                let ghost mid = self.entries@.remove(i as int);
                self.entries.remove(i);
                if nb.is_zero() {
                    proof {
                        lemma_flat_get_absent(mid, k);
                    }
                    Ok(nb)
                } else {
                    self.entries.push((k, nb));
                    proof {
                        assert(self.entries@ =~= mid.push((k, nb)));
                        lemma_flat_push_wf(mid, k, nb);
                    }
                    Ok(nb)
                }
            },
            None => Err(BalanceError::InsufficientBalance),
        }
    }

    /// Atomic move between two stores under one key; on any failure both
    /// stores are unchanged.
    pub fn transfer(&mut self, to: &mut Balances, k: u32, amount: U256) -> (r: Result<
        (),
        BalanceError,
    >)
        requires
            old(self).wf(),
            old(to).wf(),
        ensures
            final(self).wf(),
            final(to).wf(),
            match r {
                Ok(()) => {
                    &&& old(self).has_key(k)
                    &&& old(self).balance_of(k) >= amount.as_nat()
                    &&& old(to).balance_of(k) + amount.as_nat() < pow256()
                    &&& final(self).balance_of(k) == old(self).balance_of(k) - amount.as_nat()
                    &&& final(to).balance_of(k) == old(to).balance_of(k) + amount.as_nat()
                    &&& forall|q: u32| q != k ==> final(self).balance_of(q) == old(self).balance_of(q)
                    &&& forall|q: u32| q != k ==> final(to).balance_of(q) == old(to).balance_of(q)
                },
                Err(BalanceError::NotFound) => {
                    &&& !old(self).has_key(k)
                    &&& *final(self) == *old(self) && *final(to) == *old(to)
                },
                Err(BalanceError::InsufficientBalance) => {
                    &&& old(self).has_key(k) && old(self).balance_of(k) < amount.as_nat()
                    &&& *final(self) == *old(self) && *final(to) == *old(to)
                },
                Err(BalanceError::ArithmeticOverflow) => {
                    &&& old(self).balance_of(k) >= amount.as_nat()
                    &&& old(to).balance_of(k) + amount.as_nat() >= pow256()
                    &&& *final(self) == *old(self) && *final(to) == *old(to)
                },
            },
    {
        let here = match self.get(k) {
            Some(v) => v,
            None => {
                return Err(BalanceError::NotFound);
            },
        };
        if here.lt(&amount) {
            return Err(BalanceError::InsufficientBalance);
        }
        proof {
            to.lemma_balance_in_range(k);
        }
        let to_cur = match to.get(k) {
            Some(v) => v,
            None => U256::zero(),
        };
        match to_cur.checked_add(&amount) {
            Some(_) => {
                let deb = self.debit(k, amount);
                proof {
                    assert(deb is Ok);
                }
                let cre = to.credit(k, amount);
                proof {
                    assert(cre is Ok);
                }
                Ok(())
            },
            None => Err(BalanceError::ArithmeticOverflow),
        }
    }
}

/// The grouped store: chain id and token address to amount. Pruning keeps
/// no empty entries, so no empty group survives either.
pub struct GroupedBalances {
    pub entries: Vec<(u32, crate::types::Address, U256)>,
}

/// The amount under chain `c` and token `t`; 0 when absent.
pub open spec fn grp_get(s: Seq<(u32, crate::types::Address, U256)>, c: u32, t: Seq<u8>) -> nat
    decreases s.len(),
{
    if s.len() == 0 {
        0
    } else if s.last().0 == c && s.last().1@ == t {
        s.last().2.as_nat()
    } else {
        grp_get(s.drop_last(), c, t)
    }
}

pub open spec fn grp_has(s: Seq<(u32, crate::types::Address, U256)>, c: u32, t: Seq<u8>) -> bool {
    exists|i: int| 0 <= i < s.len() && (#[trigger] s[i]).0 == c && s[i].1@ == t
}

pub open spec fn grp_wf(s: Seq<(u32, crate::types::Address, U256)>) -> bool {
    &&& forall|i: int, j: int|
        0 <= i < j < s.len() ==> !((#[trigger] s[i]).0 == (#[trigger] s[j]).0 && s[i].1@
            == s[j].1@)
    &&& forall|i: int| 0 <= i < s.len() ==> (#[trigger] s[i]).2.as_nat() > 0
}

proof fn lemma_grp_get_absent(s: Seq<(u32, crate::types::Address, U256)>, c: u32, t: Seq<u8>)
    requires
        !grp_has(s, c, t),
    ensures
        grp_get(s, c, t) == 0,
    decreases s.len(),
{
    if s.len() > 0 {
        assert(forall|i: int|
            0 <= i < s.len() - 1 ==> s.drop_last()[i] == #[trigger] s[i]);
        lemma_grp_get_absent(s.drop_last(), c, t);
    }
}

proof fn lemma_grp_get_at(s: Seq<(u32, crate::types::Address, U256)>, i: int)
    requires
        grp_wf(s),
        0 <= i < s.len(),
    ensures
        grp_get(s, s[i].0, s[i].1@) == s[i].2.as_nat(),
        grp_has(s, s[i].0, s[i].1@),
    decreases s.len(),
{
    if i < s.len() - 1 {
        assert(s.drop_last()[i] == s[i]);
        assert(grp_wf(s.drop_last())) by {
            assert(forall|x: int|
                0 <= x < s.len() - 1 ==> s.drop_last()[x] == #[trigger] s[x]);
        }
        lemma_grp_get_at(s.drop_last(), i);
    }
}

proof fn lemma_grp_get_remove(
    s: Seq<(u32, crate::types::Address, U256)>,
    i: int,
    c: u32,
    t: Seq<u8>,
)
    requires
        grp_wf(s),
        0 <= i < s.len(),
    ensures
        grp_wf(s.remove(i)),
        grp_get(s.remove(i), c, t) == if c == s[i].0 && t == s[i].1@ {
            0
        } else {
            grp_get(s, c, t)
        },
        !grp_has(s.remove(i), s[i].0, s[i].1@),
        !(c == s[i].0 && t == s[i].1@) ==> grp_has(s.remove(i), c, t) == grp_has(s, c, t),
    decreases s.len(),
{
    let u = s.remove(i);
    assert(forall|x: int| 0 <= x < i ==> u[x] == #[trigger] s[x]);
    assert(forall|x: int| i <= x < u.len() ==> u[x] == #[trigger] s[x + 1]);
    assert(grp_wf(u));
    assert(!grp_has(u, s[i].0, s[i].1@));
    lemma_grp_get_absent(u, s[i].0, s[i].1@);
    if !(c == s[i].0 && t == s[i].1@) {
        if grp_has(s, c, t) {
            let w = choose|w: int| 0 <= w < s.len() && (#[trigger] s[w]).0 == c && s[w].1@ == t;
            lemma_grp_get_at(s, w);
            if w < i {
                lemma_grp_get_at(u, w);
            } else {
                lemma_grp_get_at(u, w - 1);
            }
        } else {
            lemma_grp_get_absent(s, c, t);
            assert(!grp_has(u, c, t));
            lemma_grp_get_absent(u, c, t);
        }
        if grp_has(u, c, t) {
            let w = choose|w: int| 0 <= w < u.len() && (#[trigger] u[w]).0 == c && u[w].1@ == t;
            if w < i {
                assert(s[w].0 == c && s[w].1@ == t);
            } else {
                assert(s[w + 1].0 == c && s[w + 1].1@ == t);
            }
        }
    }
}

proof fn lemma_grp_push_wf(
    s: Seq<(u32, crate::types::Address, U256)>,
    c: u32,
    a: crate::types::Address,
    v: U256,
)
    requires
        grp_wf(s),
        !grp_has(s, c, a@),
        v.as_nat() > 0,
    ensures
        grp_wf(s.push((c, a, v))),
        grp_get(s.push((c, a, v)), c, a@) == v.as_nat(),
        grp_has(s.push((c, a, v)), c, a@),
        forall|q: u32, w: Seq<u8>|
            !(q == c && w == a@) ==> grp_get(s.push((c, a, v)), q, w) == grp_get(s, q, w),
        forall|q: u32, w: Seq<u8>|
            !(q == c && w == a@) ==> grp_has(s.push((c, a, v)), q, w) == grp_has(s, q, w),
{
    let u = s.push((c, a, v));
    assert(forall|x: int| 0 <= x < s.len() ==> u[x] == #[trigger] s[x]);
    assert(u[s.len() as int] == (c, a, v));
    assert(u.last() == (c, a, v));
    assert(u.drop_last() =~= s);
    assert forall|q: u32, w: Seq<u8>| !(q == c && w == a@) implies grp_has(u, q, w) == grp_has(
        s,
        q,
        w,
    ) by {
        if grp_has(u, q, w) {
            let x = choose|x: int| 0 <= x < u.len() && (#[trigger] u[x]).0 == q && u[x].1@ == w;
            assert(x < s.len());
            assert(s[x].0 == q && s[x].1@ == w);
        }
    }
}

impl GroupedBalances {
    pub open spec fn wf(&self) -> bool {
        grp_wf(self.entries@)
    }

    /// The amount stored under chain `c` and token `t`; zero when absent.
    pub open spec fn balance_of(&self, c: u32, t: Seq<u8>) -> nat {
        grp_get(self.entries@, c, t)
    }

    pub open spec fn has_key(&self, c: u32, t: Seq<u8>) -> bool {
        grp_has(self.entries@, c, t)
    }

    /// A stored balance never exceeds the 256-bit range.
    pub proof fn lemma_balance_in_range(&self, c: u32, t: Seq<u8>)
        ensures
            self.balance_of(c, t) < pow256(),
        decreases self.entries@.len(),
    {
        lemma_grp_get_below(self.entries@, c, t);
    }

    pub fn new() -> (r: GroupedBalances)
        ensures
            r.wf(),
            forall|c: u32, t: Seq<u8>| r.balance_of(c, t) == 0,
            forall|c: u32, t: Seq<u8>| !r.has_key(c, t),
    {
        GroupedBalances { entries: Vec::new() }
    }

    fn find(&self, c: u32, token: &crate::types::Address) -> (r: Option<usize>)
        ensures
            match r {
                Some(i) => i < self.entries@.len() && self.entries@[i as int].0 == c
                    && self.entries@[i as int].1@ == token@,
                None => !self.has_key(c, token@),
            },
    {
        let mut i: usize = 0;
        let n = self.entries.len();
        while i < n
            invariant
                i <= n,
                n == self.entries@.len(),
                forall|j: int|
                    0 <= j < i ==> !((#[trigger] self.entries@[j]).0 == c && self.entries@[j].1@
                        == token@),
            decreases n - i,
        {
            let hit = self.entries[i].0 == c && self.entries[i].1.eq_addr(token);
            if hit {
                return Some(i);
            }
            i += 1;
        }
        None
    }

    /// The stored amount under the key, when an entry exists.
    pub fn get(&self, c: u32, token: &crate::types::Address) -> (r: Option<U256>)
        requires
            self.wf(),
        ensures
            match r {
                Some(v) => self.has_key(c, token@) && v.as_nat() == self.balance_of(c, token@),
                None => !self.has_key(c, token@) && self.balance_of(c, token@) == 0,
            },
    {
        match self.find(c, token) {
            Some(i) => {
                proof {
                    lemma_grp_get_at(self.entries@, i as int);
                }
                Some(self.entries[i].2)
            },
            None => {
                proof {
                    lemma_grp_get_absent(self.entries@, c, token@);
                }
                None
            },
        }
    }

    /// Adds `amount` under the key, creating the entry as needed; on
    /// success returns the new balance.
    pub fn credit(&mut self, c: u32, token: &crate::types::Address, amount: U256) -> (r: Result<
        U256,
        BalanceError,
    >)
        requires
            old(self).wf(),
        ensures
            final(self).wf(),
            match r {
                Ok(b) => {
                    &&& old(self).balance_of(c, token@) + amount.as_nat() < pow256()
                    &&& b.as_nat() == old(self).balance_of(c, token@) + amount.as_nat()
                    &&& final(self).balance_of(c, token@) == b.as_nat()
                    &&& forall|q: u32, w: Seq<u8>|
                        !(q == c && w == token@) ==> final(self).balance_of(q, w) == old(self).balance_of(q, w)
                    &&& forall|q: u32, w: Seq<u8>|
                        !(q == c && w == token@) ==> final(self).has_key(q, w) == old(self).has_key(q, w)
                    &&& final(self).has_key(c, token@) == (b.as_nat() > 0)
                },
                Err(e) => {
                    &&& e == BalanceError::ArithmeticOverflow
                    &&& old(self).balance_of(c, token@) + amount.as_nat() >= pow256()
                    &&& *final(self) == *old(self)
                },
            },
    {
        match self.find(c, token) {
            Some(i) => {
                proof {
                    lemma_grp_get_at(self.entries@, i as int);
                }
                let cur = self.entries[i].2;
                match cur.checked_add(&amount) {
                    Some(nb) => {
                        proof {
                            assert forall|q: u32, w: Seq<u8>| !(q == c && w == token@) implies
                                grp_get(self.entries@.remove(i as int), q, w) == grp_get(
                                self.entries@,
                                q,
                                w,
                            ) && grp_has(self.entries@.remove(i as int), q, w) == grp_has(
                                self.entries@,
                                q,
                                w,
                            ) by {
                                lemma_grp_get_remove(self.entries@, i as int, q, w);
                            }
                            lemma_grp_get_remove(self.entries@, i as int, c, token@);
                        }
                        let ghost mid = self.entries@.remove(i as int);
                        let tok = self.entries[i].1;
                        self.entries.remove(i);
                        self.entries.push((c, tok, nb));
                        proof {
                            assert(self.entries@ =~= mid.push((c, tok, nb)));
                            lemma_grp_push_wf(mid, c, tok, nb);
                        }
                        Ok(nb)
                    },
                    None => Err(BalanceError::ArithmeticOverflow),
                }
            },
            None => {
                proof {
                    lemma_grp_get_absent(self.entries@, c, token@);
                }
                if amount.is_zero() {
                    Ok(U256::zero())
                } else {
                    let ghost pre = self.entries@;
                    self.entries.push((c, *token, amount));
                    proof {
                        assert(self.entries@ =~= pre.push((c, *token, amount)));
                        lemma_grp_push_wf(pre, c, *token, amount);
                    }
                    Ok(amount)
                }
            },
        }
    }

    /// Subtracts `amount` under the key; the entry is removed when the
    /// balance reaches zero.
    pub fn debit(&mut self, c: u32, token: &crate::types::Address, amount: U256) -> (r: Result<
        U256,
        BalanceError,
    >)
        requires
            old(self).wf(),
        ensures
            final(self).wf(),
            match r {
                Ok(b) => {
                    &&& old(self).has_key(c, token@)
                    &&& old(self).balance_of(c, token@) >= amount.as_nat()
                    &&& b.as_nat() == old(self).balance_of(c, token@) - amount.as_nat()
                    &&& final(self).balance_of(c, token@) == b.as_nat()
                    &&& forall|q: u32, w: Seq<u8>|
                        !(q == c && w == token@) ==> final(self).balance_of(q, w) == old(self).balance_of(q, w)
                    &&& forall|q: u32, w: Seq<u8>|
                        !(q == c && w == token@) ==> final(self).has_key(q, w) == old(self).has_key(q, w)
                    &&& final(self).has_key(c, token@) == (b.as_nat() > 0)
                },
                Err(e) => {
                    &&& e == BalanceError::InsufficientBalance
                    &&& !old(self).has_key(c, token@) || old(self).balance_of(c, token@)
                        < amount.as_nat()
                    &&& *final(self) == *old(self)
                },
            },
    {
        match self.find(c, token) {
            Some(i) => {
                proof {
                    lemma_grp_get_at(self.entries@, i as int);
                }
                let cur = self.entries[i].2;
                if cur.lt(&amount) {
                    return Err(BalanceError::InsufficientBalance);
                }
                let nb = cur.sub(&amount);
                proof {
                    assert forall|q: u32, w: Seq<u8>| !(q == c && w == token@) implies grp_get(
                        self.entries@.remove(i as int),
                        q,
                        w,
                    ) == grp_get(self.entries@, q, w) && grp_has(
                        self.entries@.remove(i as int),
                        q,
                        w,
                    ) == grp_has(self.entries@, q, w) by {
                        lemma_grp_get_remove(self.entries@, i as int, q, w);
                    }
                    lemma_grp_get_remove(self.entries@, i as int, c, token@);
                }
                let ghost mid = self.entries@.remove(i as int);
                let tok = self.entries[i].1;
                self.entries.remove(i);
                if nb.is_zero() {
                    proof {
                        lemma_grp_get_absent(mid, c, token@);
                    }
                    Ok(nb)
                } else {
                    self.entries.push((c, tok, nb));
                    proof {
                        assert(self.entries@ =~= mid.push((c, tok, nb)));
                        lemma_grp_push_wf(mid, c, tok, nb);
                    }
                    Ok(nb)
                }
            },
            None => Err(BalanceError::InsufficientBalance),
        }
    }

    /// Atomic move between two grouped stores under one key; on any
    /// failure both stores are unchanged.
    pub fn transfer(
        &mut self,
        to: &mut GroupedBalances,
        c: u32,
        token: &crate::types::Address,
        amount: U256,
    ) -> (r: Result<(), BalanceError>)
        requires
            old(self).wf(),
            old(to).wf(),
        ensures
            final(self).wf(),
            final(to).wf(),
            match r {
                Ok(()) => {
                    &&& old(self).has_key(c, token@)
                    &&& old(self).balance_of(c, token@) >= amount.as_nat()
                    &&& old(to).balance_of(c, token@) + amount.as_nat() < pow256()
                    &&& final(self).balance_of(c, token@) == old(self).balance_of(c, token@)
                        - amount.as_nat()
                    &&& final(to).balance_of(c, token@) == old(to).balance_of(c, token@)
                        + amount.as_nat()
                    &&& forall|q: u32, w: Seq<u8>|
                        !(q == c && w == token@) ==> final(self).balance_of(q, w) == old(self).balance_of(q, w)
                    &&& forall|q: u32, w: Seq<u8>|
                        !(q == c && w == token@) ==> final(to).balance_of(q, w) == old(to).balance_of(q, w)
                },
                Err(BalanceError::NotFound) => {
                    &&& !old(self).has_key(c, token@)
                    &&& *final(self) == *old(self) && *final(to) == *old(to)
                },
                Err(BalanceError::InsufficientBalance) => {
                    &&& old(self).has_key(c, token@) && old(self).balance_of(c, token@)
                        < amount.as_nat()
                    &&& *final(self) == *old(self) && *final(to) == *old(to)
                },
                Err(BalanceError::ArithmeticOverflow) => {
                    &&& old(self).balance_of(c, token@) >= amount.as_nat()
                    &&& old(to).balance_of(c, token@) + amount.as_nat() >= pow256()
                    &&& *final(self) == *old(self) && *final(to) == *old(to)
                },
            },
    {
        let here = match self.get(c, token) {
            Some(v) => v,
            None => {
                return Err(BalanceError::NotFound);
            },
        };
        if here.lt(&amount) {
            return Err(BalanceError::InsufficientBalance);
        }
        proof {
            to.lemma_balance_in_range(c, token@);
        }
        let to_cur = match to.get(c, token) {
            Some(v) => v,
            None => U256::zero(),
        };
        match to_cur.checked_add(&amount) {
            Some(_) => {
                let deb = self.debit(c, token, amount);
                proof {
                    assert(deb is Ok);
                }
                let cre = to.credit(c, token, amount);
                proof {
                    assert(cre is Ok);
                }
                Ok(())
            },
            None => Err(BalanceError::ArithmeticOverflow),
        }
    }
}

proof fn lemma_grp_get_below(s: Seq<(u32, crate::types::Address, U256)>, c: u32, t: Seq<u8>)
    ensures
        grp_get(s, c, t) < pow256(),
    decreases s.len(),
{
    if s.len() > 0 {
        lemma_grp_get_below(s.drop_last(), c, t);
    }
}

/// The value read from a well-formed store is a stored amount or zero,
/// hence below 2^256.
proof fn lemma_flat_get_below(s: Seq<(u32, U256)>, k: u32)
    ensures
        flat_get(s, k) < pow256(),
    decreases s.len(),
{
    if s.len() > 0 {
        lemma_flat_get_below(s.drop_last(), k);
    }
}

/// Appending a fresh positive entry keeps a store well-formed.
proof fn lemma_flat_push_wf(s: Seq<(u32, U256)>, k: u32, v: U256)
    requires
        flat_wf(s),
        !flat_has(s, k),
        v.as_nat() > 0,
    ensures
        flat_wf(s.push((k, v))),
        flat_get(s.push((k, v)), k) == v.as_nat(),
        flat_has(s.push((k, v)), k),
        forall|q: u32| q != k ==> flat_get(s.push((k, v)), q) == flat_get(s, q),
        forall|q: u32| q != k ==> flat_has(s.push((k, v)), q) == flat_has(s, q),
{
    let t = s.push((k, v));
    assert(forall|x: int| 0 <= x < s.len() ==> t[x] == #[trigger] s[x]);
    assert(t[s.len() as int] == (k, v));
    assert(t.last() == (k, v));
    assert(t.drop_last() =~= s);
    assert forall|q: u32| q != k implies flat_has(t, q) == flat_has(s, q) by {
        if flat_has(t, q) {
            let w = choose|w: int| 0 <= w < t.len() && t[w].0 == q;
            assert(w < s.len());
            assert(s[w].0 == q);
        }
    }
}

} // verus!
