//! The fee oracle.
//!
//! From a fee history the engine takes the latest base fee and the
//! median of the returned percentile tips, sorted ascending; with fewer
//! entries than the window asks for, the median defaults to zero. The
//! suggested maximum fee is the median tip plus the base fee, floored at
//! 1.5 gwei.

use vstd::prelude::*;
use crate::eth_get_logs::{RejectionCode, RpcError};
use crate::u256::{pow256, U256};

verus! {

/// The least maximum-priority-fee suggestion, in wei: 1.5 gwei.
pub const MIN_SUGGEST_MAX_PRIORITY_FEE_PER_GAS: u32 = 1_500_000_000;

/// Failure of a multi-provider RPC call.
#[derive(Debug)]
pub enum RpcCallError {
    InconsistentResponses,
    RpcError,
    CallRejected(RejectionCode, String),
}

/// Failure to obtain a usable fee history.
#[derive(Debug)]
pub enum FeeHistoryError {
    RpcCallError(RpcCallError),
    NoHistory,
}

/// A fee history as the RPC adapter returns it: the base fee of each
/// block and the requested percentile rewards per block.
#[derive(Debug)]
pub struct FeeHistory {
    pub oldest_block: u64,
    pub base_fee_per_gas: Vec<U256>,
    pub reward: Vec<Vec<U256>>,
}

/// What one provider answered to `eth_feeHistory`.
#[derive(Debug)]
pub enum FeeHistoryResult {
    Fetched(Option<FeeHistory>),
    Error(RpcError),
}

/// What the multi-provider adapter reported for `eth_feeHistory`.
#[derive(Debug)]
pub enum MultiFeeHistoryResult {
    Consistent(FeeHistoryResult),
    Inconsistent,
}

/// The fee settings a transaction is built with.
#[derive(Clone, Copy, Debug)]
pub struct FeeSettings {
    pub max_fee_per_gas: U256,
    pub max_priority_fee_per_gas: U256,
}

/// The values of a vector of amounts.
pub open spec fn amount_vals(v: Seq<U256>) -> Seq<nat> {
    Seq::new(v.len(), |i: int| v[i].as_nat())
}

/// All reward entries, rows in order.
pub open spec fn flat_vals(rows: Seq<Seq<nat>>) -> Seq<nat>
    decreases rows.len(),
{
    if rows.len() == 0 {
        Seq::empty()
    } else {
        flat_vals(rows.drop_last()) + rows.last()
    }
}

pub open spec fn sorted_nats(s: Seq<nat>) -> bool {
    forall|i: int, j: int| 0 <= i < j < s.len() ==> s[i] <= s[j]
}

/// `x` placed at its position in an ascending sequence.
pub open spec fn insert_sorted(s: Seq<nat>, x: nat) -> Seq<nat>
    decreases s.len(),
{
    if s.len() == 0 {
        seq![x]
    } else if x <= s[0] {
        seq![x] + s
    } else {
        seq![s[0]] + insert_sorted(s.subrange(1, s.len() as int), x)
    }
}

/// The ascending ordering of a sequence.
pub open spec fn sort_nats(s: Seq<nat>) -> Seq<nat>
    decreases s.len(),
{
    if s.len() == 0 {
        Seq::empty()
    } else {
        insert_sorted(sort_nats(s.drop_last()), s.last())
    }
}

/// The median the oracle uses: the entry at `(window - 1) / 2` of the
/// ascending rewards, zero when there are not enough entries.
pub open spec fn spec_median_reward(rewards: Seq<nat>, window: nat) -> nat {
    let sorted = sort_nats(rewards);
    let idx = (window - 1) / 2;
    if idx < sorted.len() {
        sorted[idx]
    } else {
        0
    }
}

/// Inserting keeps a sequence ascending.
proof fn lemma_insert_sorted_keeps_sorted(s: Seq<nat>, x: nat)
    requires
        sorted_nats(s),
    ensures
        sorted_nats(insert_sorted(s, x)),
        insert_sorted(s, x).len() == s.len() + 1,
    decreases s.len(),
{
    if s.len() == 0 {
        assert(insert_sorted(s, x) =~= seq![x]);
    } else if x <= s[0] {
        let t = seq![x] + s;
        assert(forall|i: int| 0 <= i < s.len() ==> t[i + 1] == s[i]);
        assert(t[0] == x);
        assert(sorted_nats(t));
    } else {
        let rest = s.subrange(1, s.len() as int);
        assert(sorted_nats(rest)) by {
            assert(forall|i: int| 0 <= i < rest.len() ==> rest[i] == s[i + 1]);
        }
        lemma_insert_sorted_keeps_sorted(rest, x);
        let inner = insert_sorted(rest, x);
        let t = seq![s[0]] + inner;
        assert(forall|i: int| 0 <= i < inner.len() ==> t[i + 1] == inner[i]);
        assert(t[0] == s[0]);
        assert forall|i: int, j: int| 0 <= i < j < t.len() implies t[i] <= t[j] by {
            if i == 0 {
                assert(s[0] <= t[j]) by {
                    lemma_insert_sorted_lower_bound(rest, x, j - 1);
                }
            }
        }
    }
}

/// Every entry of an insertion result bounds below by the smaller of
/// `x` and the sequence's entries that precede it.
proof fn lemma_insert_sorted_lower_bound(s: Seq<nat>, x: nat, j: int)
    requires
        sorted_nats(s),
        0 <= j < insert_sorted(s, x).len(),
    ensures
        insert_sorted(s, x)[j] == x || (exists|w: int|
            0 <= w < s.len() && s[w] == insert_sorted(s, x)[j]),
    decreases s.len(),
{
    if s.len() == 0 {
    } else if x <= s[0] {
        let t = seq![x] + s;
        if j > 0 {
            assert(t[j] == s[j - 1]);
        }
    } else {
        let rest = s.subrange(1, s.len() as int);
        assert(sorted_nats(rest)) by {
            assert(forall|i: int| 0 <= i < rest.len() ==> rest[i] == s[i + 1]);
        }
        let inner = insert_sorted(rest, x);
        let t = seq![s[0]] + inner;
        if j > 0 {
            assert(t[j] == inner[j - 1]);
            lemma_insert_sorted_lower_bound(rest, x, j - 1);
            if inner[j - 1] != x {
                let w = choose|w: int| 0 <= w < rest.len() && rest[w] == inner[j - 1];
                assert(s[w + 1] == inner[j - 1]);
            }
        }
    }
}

/// Where the first not-smaller entry sits, insertion splits the
/// sequence there.
proof fn lemma_insert_sorted_split(s: Seq<nat>, x: nat, p: int)
    requires
        sorted_nats(s),
        0 <= p <= s.len(),
        forall|i: int| 0 <= i < p ==> s[i] < x,
        p < s.len() ==> x <= s[p],
    ensures
        insert_sorted(s, x) =~= s.take(p) + seq![x] + s.skip(p),
    decreases s.len(),
{
    if s.len() == 0 {
        assert(insert_sorted(s, x) =~= seq![x]);
    } else if p == 0 {
        assert(insert_sorted(s, x) =~= seq![x] + s);
    } else {
        let rest = s.subrange(1, s.len() as int);
        assert(sorted_nats(rest)) by {
            assert(forall|i: int| 0 <= i < rest.len() ==> rest[i] == s[i + 1]);
        }
        assert(s[0] < x);
        lemma_insert_sorted_split(rest, x, p - 1);
        assert(insert_sorted(s, x) =~= seq![s[0]] + insert_sorted(rest, x));
    }
}

/// Reads the multi-provider fee-history outcome: a consistent history
/// is returned, a consistent absence is `NoHistory`, and a provider
/// error or an inconsistent answer are both inconsistent responses.
pub fn interpret_fee_history_result(result: MultiFeeHistoryResult) -> (r: Result<
    FeeHistory,
    FeeHistoryError,
>)
    ensures
        match result {
            MultiFeeHistoryResult::Consistent(FeeHistoryResult::Fetched(h)) => {
                match h {
                    Option::Some(history) => r is Ok && r->Ok_0 == history,
                    Option::None => r matches Err(FeeHistoryError::NoHistory),
                }
            },
            MultiFeeHistoryResult::Consistent(FeeHistoryResult::Error(_)) => r matches Err(
                FeeHistoryError::RpcCallError(RpcCallError::InconsistentResponses),
            ),
            MultiFeeHistoryResult::Inconsistent => r matches Err(
                FeeHistoryError::RpcCallError(RpcCallError::InconsistentResponses),
            ),
        },
{
    match result {
        MultiFeeHistoryResult::Consistent(FeeHistoryResult::Fetched(Some(history))) => Ok(history),
        MultiFeeHistoryResult::Consistent(FeeHistoryResult::Fetched(None)) => Err(
            FeeHistoryError::NoHistory,
        ),
        MultiFeeHistoryResult::Consistent(FeeHistoryResult::Error(_)) => Err(
            FeeHistoryError::RpcCallError(RpcCallError::InconsistentResponses),
        ),
        MultiFeeHistoryResult::Inconsistent => Err(
            FeeHistoryError::RpcCallError(RpcCallError::InconsistentResponses),
        ),
    }
}

/// The position of `length - 1` halved: the median index of an
/// ascending array of `length` entries.
pub fn median_index(length: usize) -> (r: usize)
    requires
        length > 0,
    ensures
        r == (length - 1) / 2,
{
    (length - 1) / 2
}

/// Sorts amounts ascending by value.
fn sort_amounts(v: Vec<U256>) -> (r: Vec<U256>)
    ensures
        amount_vals(r@) == sort_nats(amount_vals(v@)),
{
    let mut out: Vec<U256> = Vec::new();
    let mut i: usize = 0;
    let n = v.len();
    proof {
        assert(amount_vals(v@.take(0)) =~= Seq::<nat>::empty());
        assert(amount_vals(out@) =~= sort_nats(amount_vals(v@.take(0))));
    }
    while i < n
        invariant
            i <= n,
            n == v@.len(),
            amount_vals(out@) == sort_nats(amount_vals(v@.take(i as int))),
            sorted_nats(amount_vals(out@)),
        decreases n - i,
    {
        let x = v[i];
        let mut p: usize = 0;
        let m = out.len();
        while p < m && out[p].lt(&x)
            invariant
                p <= m,
                m == out@.len(),
                forall|q: int| 0 <= q < p ==> amount_vals(out@)[q] < x.as_nat(),
                sorted_nats(amount_vals(out@)),
            decreases m - p,
        {
            p += 1;
        }
        let ghost pre = out@;
        out.insert(p, x);
        proof {
            let vals_pre = amount_vals(pre);
            assert(p < m ==> x.as_nat() <= vals_pre[p as int]);
            lemma_insert_sorted_split(vals_pre, x.as_nat(), p as int);
            assert(amount_vals(out@) =~= vals_pre.take(p as int) + seq![x.as_nat()]
                + vals_pre.skip(p as int));
            assert(amount_vals(out@) == insert_sorted(vals_pre, x.as_nat()));
            lemma_insert_sorted_keeps_sorted(vals_pre, x.as_nat());
            assert(amount_vals(v@.take(i + 1)).drop_last() =~= amount_vals(v@.take(i as int)));
            assert(amount_vals(v@.take(i + 1)).last() == x.as_nat());
            assert(sort_nats(amount_vals(v@.take(i + 1))) == insert_sorted(
                sort_nats(amount_vals(v@.take(i as int))),
                x.as_nat(),
            ));
        }
        i += 1;
    }
    proof {
        assert(v@.take(n as int) =~= v@);
    }
    out
}

/// The reward rows, each row's values in order.
pub open spec fn reward_rows(r: Seq<Vec<U256>>) -> Seq<Seq<nat>> {
    Seq::new(r.len(), |i: int| amount_vals(r[i]@))
}

/// Computes `(maxFeePerGas, maxPriorityFeePerGas)` from a fee history:
/// the priority fee is the median percentile tip (zero when the history
/// is shorter than the window), and the maximum fee is that median plus
/// the latest base fee, floored at 1.5 gwei. A history without base
/// fees yields `NoHistory`.
pub fn estimate_transaction_fees(fee_history: &FeeHistory, block_count: u8) -> (r: Result<
    FeeSettings,
    FeeHistoryError,
>)
    requires
        block_count > 0,
        spec_median_reward(flat_vals(reward_rows(fee_history.reward@)), block_count as nat)
            + (if fee_history.base_fee_per_gas@.len() > 0 {
            fee_history.base_fee_per_gas@.last().as_nat()
        } else {
            0
        }) < pow256(),
    ensures
        match r {
            Ok(fs) => {
                let median = spec_median_reward(
                    flat_vals(reward_rows(fee_history.reward@)),
                    block_count as nat,
                );
                let base = fee_history.base_fee_per_gas@.last().as_nat();
                &&& fee_history.base_fee_per_gas@.len() > 0
                &&& fs.max_priority_fee_per_gas.as_nat() == median
                &&& fs.max_fee_per_gas.as_nat() == if median + base
                    > MIN_SUGGEST_MAX_PRIORITY_FEE_PER_GAS {
                    median + base
                } else {
                    MIN_SUGGEST_MAX_PRIORITY_FEE_PER_GAS as nat
                }
            },
            Err(e) => {
                &&& e is NoHistory
                &&& fee_history.base_fee_per_gas@.len() == 0
            },
        },
{
    if fee_history.base_fee_per_gas.len() == 0 {
        return Err(FeeHistoryError::NoHistory);
    }
    let base_fee_per_gas = fee_history.base_fee_per_gas[fee_history.base_fee_per_gas.len() - 1];
    let mut tips: Vec<U256> = Vec::new();
    let rows = fee_history.reward.len();
    let mut i: usize = 0;
    proof {
        assert(flat_vals(reward_rows(fee_history.reward@).take(0)) =~= Seq::<nat>::empty());
        assert(amount_vals(tips@) =~= flat_vals(reward_rows(fee_history.reward@).take(0)));
    }
    while i < rows
        invariant
            i <= rows,
            rows == fee_history.reward@.len(),
            amount_vals(tips@) == flat_vals(reward_rows(fee_history.reward@).take(i as int)),
        decreases rows - i,
    {
        let cols = fee_history.reward[i].len();
        let mut j: usize = 0;
        while j < cols
            invariant
                j <= cols,
                i < rows,
                rows == fee_history.reward@.len(),
                cols == fee_history.reward@[i as int]@.len(),
                amount_vals(tips@) =~= flat_vals(
                    reward_rows(fee_history.reward@).take(i as int),
                ) + amount_vals(fee_history.reward@[i as int]@.take(j as int)),
            decreases cols - j,
        {
            let ghost prevals = amount_vals(tips@);
            tips.push(fee_history.reward[i][j]);
            proof {
                assert(amount_vals(tips@) =~= prevals.push(
                    fee_history.reward@[i as int]@[j as int].as_nat(),
                ));
                assert(amount_vals(fee_history.reward@[i as int]@.take(j + 1)) =~= amount_vals(
                    fee_history.reward@[i as int]@.take(j as int),
                ).push(fee_history.reward@[i as int]@[j as int].as_nat()));
                assert(amount_vals(tips@) =~= flat_vals(
                    reward_rows(fee_history.reward@).take(i as int),
                ) + amount_vals(fee_history.reward@[i as int]@.take(j + 1)));
            }
            j += 1;
        }
        proof {
            let rr = reward_rows(fee_history.reward@);
            assert(fee_history.reward@[i as int]@.take(cols as int) =~= fee_history.reward@[i as int]@);
            assert(rr.take(i + 1).drop_last() =~= rr.take(i as int));
            assert(rr.take(i + 1).last() == rr[i as int]);
            assert(flat_vals(rr.take(i + 1)) == flat_vals(rr.take(i as int)) + rr[i as int]);
            assert(amount_vals(tips@) =~= flat_vals(rr.take(i + 1)));
        }
        i += 1;
    }
    proof {
        assert(reward_rows(fee_history.reward@).take(rows as int) =~= reward_rows(
            fee_history.reward@,
        ));
    }
    let sorted = sort_amounts(tips);
    let idx = median_index(block_count as usize);
    let median_reward = if idx < sorted.len() {
        proof {
            assert(amount_vals(sorted@)[idx as int] == sorted@[idx as int].as_nat());
        }
        sorted[idx]
    } else {
        U256::zero()
    };
    let with_base = match median_reward.checked_add(&base_fee_per_gas) {
        Some(v) => v,
        None => unreached(),
    };
    let floor = U256::from_u64(MIN_SUGGEST_MAX_PRIORITY_FEE_PER_GAS as u64);
    let max_priority_fee_per_gas = with_base.max(floor);
    Ok(
        FeeSettings {
            max_fee_per_gas: max_priority_fee_per_gas,
            max_priority_fee_per_gas: median_reward,
        },
    )
}

} // verus!
