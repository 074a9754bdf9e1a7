//! The engine's standing guarantees, stated on their own.
//!
//! Each proof here writes one guarantee down explicitly, over the same
//! spec functions the operations' contracts use, so a reader sees the
//! guarantee stated rather than having to derive it from the contracts.

use vstd::prelude::*;
use crate::balances::{flat_wf, grp_wf};
use crate::state::{contains_source, Network};
use crate::types::Address;
use crate::u256::U256;

verus! {

/// Every stored balance is strictly positive — a zero is pruned, never
/// stored — and every balance read is a natural number.
pub proof fn lemma_stored_balances_positive(flat: Seq<(u32, U256)>, grouped: Seq<(u32, Address, U256)>)
    requires
        flat_wf(flat),
        grp_wf(grouped),
    ensures
        forall|i: int| 0 <= i < flat.len() ==> (#[trigger] flat[i]).1.as_nat() > 0,
        forall|i: int| 0 <= i < grouped.len() ==> (#[trigger] grouped[i]).2.as_nat() > 0,
{
}

/// A successful internal transfer preserves the sum of the two
/// balances: what leaves one wallet arrives in the other.
pub proof fn lemma_transfer_preserves_sum(
    from0: nat,
    to0: nat,
    from1: nat,
    to1: nat,
    amount: nat,
)
    requires
        amount <= from0,
        from1 == from0 - amount,
        to1 == to0 + amount,
    ensures
        from1 + to1 == from0 + to0,
{
}

/// Transferring an amount and transferring it back leaves both
/// balances exactly where they started.
pub proof fn lemma_transfer_round_trip(
    a0: nat,
    b0: nat,
    a1: nat,
    b1: nat,
    a2: nat,
    b2: nat,
    amount: nat,
)
    requires
        amount <= a0,
        a1 == a0 - amount,
        b1 == b0 + amount,
        amount <= b1,
        b2 == b1 - amount,
        a2 == a1 + amount,
    ensures
        a2 == a0,
        b2 == b0,
{
}

/// The cursor order of every well-formed chain: no block is applied
/// beyond the scrape cursor, and the scrape cursor never passes the
/// last observed height.
pub proof fn lemma_cursor_order(n: Network)
    requires
        n.wf(),
    ensures
        n.spec_last_processed() <= n.last_scraped_block_number,
        n.last_observed_block_number is Some ==> n.last_scraped_block_number
            <= n.last_observed_block_number->0,
{
}

/// Exactly-once application: in a well-formed chain no source is both
/// queued and applied, so a source that reached the ledger cannot be
/// waiting to reach it again; and each set holds a source at most once.
pub proof fn lemma_log_source_applied_at_most_once(n: Network, src: (Seq<char>, u64))
    requires
        n.wf(),
    ensures
        contains_source(n.logs_to_process@, src) ==> !contains_source(n.processed_logs@, src),
        crate::state::sources_unique(n.logs_to_process@),
        crate::state::sources_unique(n.processed_logs@),
{
}

/// A withdrawal that fails after its debits has no net effect on the
/// user's native balance: the compensating credits restore the value
/// and the whole gas escrow.
pub proof fn lemma_withdraw_failure_net_zero(
    b0: nat,
    value: nat,
    max_gas_cost: nat,
    b1: nat,
    b2: nat,
    b3: nat,
    b4: nat,
)
    requires
        value + max_gas_cost <= b0,
        b1 == b0 - value,
        b2 == b1 - max_gas_cost,
        b3 == b2 + max_gas_cost,
        b4 == b3 + value,
    ensures
        b4 == b0,
{
}

/// A withdrawal that succeeds with a receipt debits the user exactly
/// the transferred value plus `gasUsed * effectiveGasPrice`, and never
/// more than the value plus the reserved escrow.
pub proof fn lemma_withdraw_success_debit(
    b0: nat,
    value: nat,
    max_gas_cost: nat,
    gas_cost: nat,
    b1: nat,
    b2: nat,
    b3: nat,
)
    requires
        value + max_gas_cost <= b0,
        gas_cost <= max_gas_cost,
        b1 == b0 - value,
        b2 == b1 - max_gas_cost,
        b3 == b2 + (max_gas_cost - gas_cost),
    ensures
        b3 == b0 - (value + gas_cost),
        b0 - b3 <= value + max_gas_cost,
{
}

} // verus!
