//! A cross-chain virtual-account engine: it watches EVM chains for deposits
//! into controlled endpoint addresses, credits an internal per-user ledger,
//! supports internal transfers at zero on-chain cost, and prepares on-chain
//! withdrawals signed by a threshold-ECDSA key, debiting a gas escrow and
//! refunding the unused portion from the receipt.
//!
//! The outward-facing request surface, the RPC transport and the signing
//! oracle are external collaborators; this crate holds the decision logic
//! and the ledger, with contracts verified by Verus.

pub mod access_control;
pub mod balances;
pub mod chain_fusion;
pub mod ecdsa;
pub mod eth_get_logs;
pub mod evm_signer;
pub mod fees;
pub mod hexs;
pub mod job;
pub mod laws;
pub mod eth_send_raw_transaction;
pub mod safe;
pub mod state;
pub mod types;
pub mod u256;
pub mod wallet;

use vstd::prelude::*;

verus! {

/// Failure of a request against the engine.
#[derive(Debug)]
pub enum HarmonizeError {
    WalletError(crate::wallet::WalletError),
    SignInError(crate::access_control::SignInError),
}

} // verus!
