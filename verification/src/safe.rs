//! The withdrawal pipeline's ledger discipline.
//!
//! Before a transaction is submitted, the transferred value and the
//! worst-case gas cost are debited from the user; the unused part of the
//! gas escrow is refunded from the receipt, and every failure after the
//! debit is compensated by crediting back what was taken. The RPC
//! submission and the receipt poll are the driver's work; each of their
//! outcomes is applied here.

use vstd::prelude::*;
use crate::ecdsa::keccak_of;
use crate::eth_get_logs::RpcError;
use crate::eth_send_raw_transaction::SendRawTransactionError;
use crate::evm_signer::SignerError;
use crate::fees::{FeeHistoryError, FeeSettings};
use crate::hexs::be_bytes_of;
use crate::job::ascii_bytes;
use crate::state::Network;
use crate::types::{Address, UserId};
use crate::u256::{pow256, U256};
use crate::wallet::{AssetKey, AssetKeyView, Wallets};

verus! {

/// The number of historical blocks used for fee estimation.
pub const FEE_ESTIMATE_BLOCKS: u8 = 9;

/// The gas limit of a plain value transfer.
pub const ETH_TRANSFER_GAS_LIMIT: u64 = 5_000_000;

/// The pessimistic gas limit of an ERC-20 transfer.
pub const ERC20_TRANSFER_GAS_LIMIT: u64 = 5_000_000;

/// Failure of an outbound transaction.
#[derive(Debug)]
pub enum TransactionError {
    NonceTooLow,
    NonceTooHigh,
    InsufficientFunds,
    NoTransaction,
    NoReceipt,
    InconsistentReceipt,
    FailedToGetReceipt(String),
    RpcCallFailed,
    FeeHistoryError(FeeHistoryError),
    SignTransactionError(SignerError),
}

/// A mined transaction's receipt, as the logic reads it.
#[derive(Debug)]
pub struct TransactionReceipt {
    pub transaction_hash: String,
    pub block_number: u64,
    pub status: u64,
    pub gas_used: u64,
    pub effective_gas_price: U256,
}

/// What one receipt poll answered.
#[derive(Debug)]
pub enum GetTransactionReceiptResult {
    Found(Option<TransactionReceipt>),
    Error(RpcError),
}

/// What the multi-provider adapter reported for the receipt poll.
#[derive(Debug)]
pub enum MultiGetTransactionReceiptResult {
    Consistent(GetTransactionReceiptResult),
    Inconsistent,
}

/// The canonical ERC-20 transfer signature.
pub fn erc20_transfer_signature() -> (r: &'static str)
    ensures
        r@ == "transfer(address,uint256)"@,
{
    "transfer(address,uint256)"
}

/// The calldata of `transfer(to, amount)`: the four selector bytes of
/// the signature's digest, the recipient left-padded to 32 bytes, and
/// the 32-byte big-endian amount.
pub open spec fn spec_erc20_transfer_data(to: Seq<u8>, amount: nat) -> Seq<u8> {
    keccak_of(ascii_bytes("transfer(address,uint256)"@)).take(4) + Seq::new(12, |i: int| 0u8) + to
        + be_bytes_of(amount, 32)
}

/// Builds the calldata of an ERC-20 transfer.
pub fn erc20_transfer_data(to: &Address, amount: &U256) -> (r: Vec<u8>)
    ensures
        r@ == spec_erc20_transfer_data(to@, amount.as_nat()),
{
    let sig = erc20_transfer_signature();
    proof {
        reveal_strlit("transfer(address,uint256)");
        vstd::string::is_ascii_spec_bytes(sig);
    }
    let sig_bytes = sig.as_bytes();
    proof {
        assert(sig_bytes@ =~= ascii_bytes("transfer(address,uint256)"@));
    }
    let digest = crate::ecdsa::keccak256(sig_bytes);
    let mut data: Vec<u8> = Vec::new();
    data.push(digest[0]);
    data.push(digest[1]);
    data.push(digest[2]);
    data.push(digest[3]);
    proof {
        assert(data@ =~= keccak_of(ascii_bytes("transfer(address,uint256)"@)).take(4));
    }
    let mut i: usize = 0;
    while i < 12
        invariant
            i <= 12,
            data@ =~= keccak_of(ascii_bytes("transfer(address,uint256)"@)).take(4) + Seq::new(
                i as nat,
                |j: int| 0u8,
            ),
        decreases 12 - i,
    {
        data.push(0);
        proof {
            assert(data@ =~= keccak_of(ascii_bytes("transfer(address,uint256)"@)).take(4)
                + Seq::new((i + 1) as nat, |j: int| 0u8));
        }
        i += 1;
    }
    let mut j: usize = 0;
    while j < 20
        invariant
            j <= 20,
            data@ =~= keccak_of(ascii_bytes("transfer(address,uint256)"@)).take(4) + Seq::new(
                12,
                |x: int| 0u8,
            ) + to@.take(j as int),
        decreases 20 - j,
    {
        data.push(to.bytes[j]);
        proof {
            assert(data@ =~= keccak_of(ascii_bytes("transfer(address,uint256)"@)).take(4)
                + Seq::new(12, |x: int| 0u8) + to@.take(j + 1));
        }
        j += 1;
    }
    proof {
        assert(to@.take(20) =~= to@);
    }
    let mut amt = amount.to_be_bytes();
    let ghost before = data@;
    data.append(&mut amt);
    proof {
        assert(data@ =~= spec_erc20_transfer_data(to@, amount.as_nat()));
    }
    data
}

/// Reads the multi-provider receipt outcome: a consistent found receipt
/// is returned; a consistent absence, a provider error and an
/// inconsistent answer are each their own failure.
pub fn interpret_receipt_result(result: MultiGetTransactionReceiptResult) -> (r: Result<
    TransactionReceipt,
    TransactionError,
>)
    ensures
        match result {
            MultiGetTransactionReceiptResult::Consistent(GetTransactionReceiptResult::Found(
                rec,
            )) => {
                match rec {
                    Option::Some(receipt) => r is Ok && r->Ok_0.gas_used == receipt.gas_used
                        && r->Ok_0.effective_gas_price == receipt.effective_gas_price
                        && r->Ok_0.status == receipt.status && r->Ok_0.block_number
                        == receipt.block_number && r->Ok_0.transaction_hash@
                        == receipt.transaction_hash@,
                    Option::None => r matches Err(TransactionError::NoReceipt),
                }
            },
            MultiGetTransactionReceiptResult::Consistent(GetTransactionReceiptResult::Error(
                _,
            )) => r matches Err(TransactionError::FailedToGetReceipt(_)),
            MultiGetTransactionReceiptResult::Inconsistent => r matches Err(
                TransactionError::InconsistentReceipt,
            ),
        },
{
    match result {
        MultiGetTransactionReceiptResult::Consistent(GetTransactionReceiptResult::Found(rec)) => {
            match rec {
                Some(receipt) => Ok(receipt),
                None => Err(TransactionError::NoReceipt),
            }
        },
        MultiGetTransactionReceiptResult::Consistent(GetTransactionReceiptResult::Error(_)) => Err(
            TransactionError::FailedToGetReceipt(String::new()),
        ),
        MultiGetTransactionReceiptResult::Inconsistent => Err(TransactionError::InconsistentReceipt),
    }
}

/// Applies a submission outcome to the chain: the per-chain nonce is
/// authoritative and increments exactly on an accepted submission that
/// returned a hash; every other outcome surfaces as an error with the
/// nonce untouched.
pub fn register_submit_status(
    n: &mut Network,
    status: Result<Option<String>, SendRawTransactionError>,
) -> (r: Result<String, TransactionError>)
    requires
        old(n).wf(),
        old(n).nonce.as_nat() < pow256() - 1,
    ensures
        final(n).wf(),
        final(n).last_scraped_block_number == old(n).last_scraped_block_number,
        final(n).last_observed_block_number == old(n).last_observed_block_number,
        final(n).last_processed_block_number == old(n).last_processed_block_number,
        final(n).logs_to_process@ == old(n).logs_to_process@,
        final(n).processed_logs@ == old(n).processed_logs@,
        final(n).skipped_blocks@ == old(n).skipped_blocks@,
        match status {
            Ok(Option::Some(h)) => r is Ok && r->Ok_0@ == h@ && final(n).nonce.as_nat() == old(
                n,
            ).nonce.as_nat() + 1,
            Ok(Option::None) => r matches Err(TransactionError::NoTransaction) && final(n).nonce
                == old(n).nonce,
            Err(_) => r matches Err(TransactionError::RpcCallFailed) && final(n).nonce == old(
                n,
            ).nonce,
        },
{
    match status {
        Ok(Some(h)) => {
            let one = U256::from_u64(1);
            let next = match n.nonce.checked_add(&one) {
                Some(v) => v,
                None => unreached(),
            };
            n.nonce = next;
            Ok(h)
        },
        Ok(None) => Err(TransactionError::NoTransaction),
        Err(_) => Err(TransactionError::RpcCallFailed),
    }
}

/// Reserves the worst-case gas cost from the sender's native balance:
/// `gas_limit * (maxFeePerGas + maxPriorityFeePerGas)`. A short balance
/// aborts with `InsufficientFunds` and no side effects.
pub fn escrow_debit(
    wallets: &mut Wallets,
    sender: &UserId,
    network_id: u32,
    gas_limit: u64,
    fee_settings: &FeeSettings,
) -> (r: Result<U256, TransactionError>)
    requires
        old(wallets).wf(),
        fee_settings.max_fee_per_gas.as_nat() + fee_settings.max_priority_fee_per_gas.as_nat()
            < pow256(),
        (fee_settings.max_fee_per_gas.as_nat() + fee_settings.max_priority_fee_per_gas.as_nat())
            * gas_limit < pow256(),
    ensures
        final(wallets).wf(),
        ({
            let key = AssetKeyView::Eth { chain_id: network_id };
            let cost = (fee_settings.max_fee_per_gas.as_nat()
                + fee_settings.max_priority_fee_per_gas.as_nat()) * gas_limit;
            match r {
                Ok(max_gas_cost) => {
                    &&& max_gas_cost.as_nat() == cost
                    &&& old(wallets).balance_of(sender@, key) >= cost
                    &&& final(wallets).balance_of(sender@, key) == old(wallets).balance_of(
                        sender@,
                        key,
                    ) - cost
                    &&& forall|u: Seq<u8>, k: AssetKeyView|
                        !(u == sender@ && k == key) ==> final(wallets).balance_of(u, k) == old(
                            wallets,
                        ).balance_of(u, k)
                },
                Err(e) => {
                    &&& e is InsufficientFunds
                    &&& !old(wallets).has_wallet(sender@) || !old(wallets).has_entry(sender@, key)
                        || old(wallets).balance_of(sender@, key) < cost
                    &&& forall|u: Seq<u8>, k: AssetKeyView|
                        final(wallets).balance_of(u, k) == old(wallets).balance_of(u, k)
                },
            }
        }),
{
    let fee_sum = match fee_settings.max_fee_per_gas.checked_add(
        &fee_settings.max_priority_fee_per_gas,
    ) {
        Some(v) => v,
        None => unreached(),
    };
    let max_gas_cost = match fee_sum.checked_mul_u64(gas_limit) {
        Some(v) => v,
        None => unreached(),
    };
    let key = AssetKey::Eth { chain_id: network_id };
    match wallets.debit(sender, &key, max_gas_cost) {
        Ok(()) => Ok(max_gas_cost),
        Err(_) => Err(TransactionError::InsufficientFunds),
    }
}

/// Settles the gas escrow from the submission's outcome. A mined
/// receipt refunds the unused part of the escrow,
/// `max_gas_cost - gasUsed * effectiveGasPrice`; any failure after the
/// escrow was taken refunds the whole escrow. Either credit can only be
/// lost when the sender's balance no longer has room for it, and then
/// it is only reported in the log.
pub fn settle_payment(
    wallets: &mut Wallets,
    sender: &UserId,
    network_id: u32,
    max_gas_cost: U256,
    outcome: Result<TransactionReceipt, TransactionError>,
) -> (r: Result<TransactionReceipt, TransactionError>)
    requires
        old(wallets).wf(),
        outcome matches Ok(receipt) ==> receipt.effective_gas_price.as_nat() * receipt.gas_used
            <= max_gas_cost.as_nat(),
    ensures
        final(wallets).wf(),
        ({
            let key = AssetKeyView::Eth { chain_id: network_id };
            match outcome {
                Ok(receipt) => {
                    let refund = max_gas_cost.as_nat() - receipt.effective_gas_price.as_nat()
                        * receipt.gas_used;
                    &&& r is Ok
                    &&& r->Ok_0.gas_used == receipt.gas_used
                    &&& r->Ok_0.effective_gas_price == receipt.effective_gas_price
                    &&& if old(wallets).balance_of(sender@, key) + refund < pow256() {
                        &&& final(wallets).balance_of(sender@, key) == old(wallets).balance_of(
                            sender@,
                            key,
                        ) + refund
                        &&& forall|u: Seq<u8>, k: AssetKeyView|
                            !(u == sender@ && k == key) ==> final(wallets).balance_of(u, k)
                                == old(wallets).balance_of(u, k)
                    } else {
                        forall|u: Seq<u8>, k: AssetKeyView|
                            final(wallets).balance_of(u, k) == old(wallets).balance_of(u, k)
                    }
                },
                Err(e) => {
                    &&& r is Err
                    &&& if old(wallets).balance_of(sender@, key) + max_gas_cost.as_nat()
                        < pow256() {
                        &&& final(wallets).balance_of(sender@, key) == old(wallets).balance_of(
                            sender@,
                            key,
                        ) + max_gas_cost.as_nat()
                        &&& forall|u: Seq<u8>, k: AssetKeyView|
                            !(u == sender@ && k == key) ==> final(wallets).balance_of(u, k)
                                == old(wallets).balance_of(u, k)
                    } else {
                        forall|u: Seq<u8>, k: AssetKeyView|
                            final(wallets).balance_of(u, k) == old(wallets).balance_of(u, k)
                    }
                },
            }
        }),
{
    let key = AssetKey::Eth { chain_id: network_id };
    match outcome {
        Ok(receipt) => {
            let gas_cost = match receipt.effective_gas_price.checked_mul_u64(receipt.gas_used) {
                Some(v) => v,
                None => unreached(),
            };
            let refund = max_gas_cost.sub(&gas_cost);
            let res = wallets.credit(sender, &key, refund);
            match res {
                Ok(()) => {},
                Err(_) => {},
            }
            Ok(receipt)
        },
        Err(e) => {
            let res = wallets.credit(sender, &key, max_gas_cost);
            match res {
                Ok(()) => {},
                Err(_) => {},
            }
            Err(e)
        },
    }
}

/// Debits the withdrawn value before anything is sent; a short balance
/// surfaces with nothing changed.
pub fn withdraw_eth_begin(
    s: &mut crate::state::State,
    from: &UserId,
    network_id: u32,
    amount: U256,
) -> (r: Result<(), crate::HarmonizeError>)
    requires
        old(s).wf(),
    ensures
        final(s).wf(),
        final(s).networks == old(s).networks,
        ({
            let key = AssetKeyView::Eth { chain_id: network_id };
            match r {
                Ok(()) => {
                    &&& old(s).wallets.balance_of(from@, key) >= amount.as_nat()
                    &&& final(s).wallets.balance_of(from@, key) == old(s).wallets.balance_of(
                        from@,
                        key,
                    ) - amount.as_nat()
                    &&& forall|u: Seq<u8>, k: AssetKeyView|
                        !(u == from@ && k == key) ==> final(s).wallets.balance_of(u, k) == old(
                            s,
                        ).wallets.balance_of(u, k)
                },
                Err(crate::HarmonizeError::WalletError(e)) => {
                    &&& forall|u: Seq<u8>, k: AssetKeyView|
                        final(s).wallets.balance_of(u, k) == old(s).wallets.balance_of(u, k)
                    &&& (e == crate::wallet::WalletError::NotFound && !old(s).wallets.has_wallet(
                        from@,
                    )) || (e == crate::wallet::WalletError::BalanceError(
                        crate::balances::BalanceError::InsufficientBalance,
                    ) && old(s).wallets.has_wallet(from@) && (!old(s).wallets.has_entry(
                        from@,
                        key,
                    ) || old(s).wallets.balance_of(from@, key) < amount.as_nat()))
                },
                Err(crate::HarmonizeError::SignInError(_)) => false,
            }
        }),
{
    let key = AssetKey::Eth { chain_id: network_id };
    match s.wallets.debit(from, &key, amount) {
        Ok(()) => Ok(()),
        Err(e) => Err(crate::HarmonizeError::WalletError(e)),
    }
}

/// Debits the withdrawn tokens before anything is sent.
pub fn withdraw_erc20_begin(
    s: &mut crate::state::State,
    from: &UserId,
    network_id: u32,
    token: &Address,
    amount: U256,
) -> (r: Result<(), crate::HarmonizeError>)
    requires
        old(s).wf(),
    ensures
        final(s).wf(),
        final(s).networks == old(s).networks,
        ({
            let key = AssetKeyView::Erc20 { chain_id: network_id, token: token@ };
            match r {
                Ok(()) => {
                    &&& old(s).wallets.balance_of(from@, key) >= amount.as_nat()
                    &&& final(s).wallets.balance_of(from@, key) == old(s).wallets.balance_of(
                        from@,
                        key,
                    ) - amount.as_nat()
                    &&& forall|u: Seq<u8>, k: AssetKeyView|
                        !(u == from@ && k == key) ==> final(s).wallets.balance_of(u, k) == old(
                            s,
                        ).wallets.balance_of(u, k)
                },
                Err(crate::HarmonizeError::WalletError(e)) => {
                    &&& forall|u: Seq<u8>, k: AssetKeyView|
                        final(s).wallets.balance_of(u, k) == old(s).wallets.balance_of(u, k)
                    &&& (e == crate::wallet::WalletError::NotFound && !old(s).wallets.has_wallet(
                        from@,
                    )) || (e == crate::wallet::WalletError::BalanceError(
                        crate::balances::BalanceError::InsufficientBalance,
                    ) && old(s).wallets.has_wallet(from@) && (!old(s).wallets.has_entry(
                        from@,
                        key,
                    ) || old(s).wallets.balance_of(from@, key) < amount.as_nat()))
                },
                Err(crate::HarmonizeError::SignInError(_)) => false,
            }
        }),
{
    let key = AssetKey::Erc20 { chain_id: network_id, token: *token };
    match s.wallets.debit(from, &key, amount) {
        Ok(()) => Ok(()),
        Err(e) => Err(crate::HarmonizeError::WalletError(e)),
    }
}

/// Credits the withdrawn value back after a failed send; only a ledger
/// overflow can refuse the compensation, and then it is surfaced.
pub fn withdraw_eth_compensate(
    s: &mut crate::state::State,
    from: &UserId,
    network_id: u32,
    amount: U256,
) -> (r: Result<(), crate::HarmonizeError>)
    requires
        old(s).wf(),
    ensures
        final(s).wf(),
        final(s).networks == old(s).networks,
        ({
            let key = AssetKeyView::Eth { chain_id: network_id };
            match r {
                Ok(()) => {
                    &&& final(s).wallets.balance_of(from@, key) == old(s).wallets.balance_of(
                        from@,
                        key,
                    ) + amount.as_nat()
                    &&& forall|u: Seq<u8>, k: AssetKeyView|
                        !(u == from@ && k == key) ==> final(s).wallets.balance_of(u, k) == old(
                            s,
                        ).wallets.balance_of(u, k)
                },
                Err(crate::HarmonizeError::WalletError(e)) => {
                    &&& e == crate::wallet::WalletError::BalanceError(
                        crate::balances::BalanceError::ArithmeticOverflow,
                    )
                    &&& old(s).wallets.balance_of(from@, key) + amount.as_nat()
                        >= crate::u256::pow256()
                    &&& forall|u: Seq<u8>, k: AssetKeyView|
                        final(s).wallets.balance_of(u, k) == old(s).wallets.balance_of(u, k)
                },
                Err(crate::HarmonizeError::SignInError(_)) => false,
            }
        }),
{
    let key = AssetKey::Eth { chain_id: network_id };
    match s.wallets.credit(from, &key, amount) {
        Ok(()) => Ok(()),
        Err(e) => Err(crate::HarmonizeError::WalletError(e)),
    }
}

/// Credits the withdrawn tokens back after a failed send.
pub fn withdraw_erc20_compensate(
    s: &mut crate::state::State,
    from: &UserId,
    network_id: u32,
    token: &Address,
    amount: U256,
) -> (r: Result<(), crate::HarmonizeError>)
    requires
        old(s).wf(),
    ensures
        final(s).wf(),
        final(s).networks == old(s).networks,
        ({
            let key = AssetKeyView::Erc20 { chain_id: network_id, token: token@ };
            match r {
                Ok(()) => {
                    &&& final(s).wallets.balance_of(from@, key) == old(s).wallets.balance_of(
                        from@,
                        key,
                    ) + amount.as_nat()
                    &&& forall|u: Seq<u8>, k: AssetKeyView|
                        !(u == from@ && k == key) ==> final(s).wallets.balance_of(u, k) == old(
                            s,
                        ).wallets.balance_of(u, k)
                },
                Err(crate::HarmonizeError::WalletError(e)) => {
                    &&& e == crate::wallet::WalletError::BalanceError(
                        crate::balances::BalanceError::ArithmeticOverflow,
                    )
                    &&& old(s).wallets.balance_of(from@, key) + amount.as_nat()
                        >= crate::u256::pow256()
                    &&& forall|u: Seq<u8>, k: AssetKeyView|
                        final(s).wallets.balance_of(u, k) == old(s).wallets.balance_of(u, k)
                },
                Err(crate::HarmonizeError::SignInError(_)) => false,
            }
        }),
{
    let key = AssetKey::Erc20 { chain_id: network_id, token: *token };
    match s.wallets.credit(from, &key, amount) {
        Ok(()) => Ok(()),
        Err(e) => Err(crate::HarmonizeError::WalletError(e)),
    }
}

} // verus!
