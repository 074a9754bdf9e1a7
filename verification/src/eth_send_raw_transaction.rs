//! Submitting a raw transaction: the request that is signed, and the
//! reading of the multi-provider submission outcome.

use vstd::prelude::*;
use crate::chain_fusion::RpcServices;
use crate::eth_get_logs::RpcError;
use crate::evm_signer::SignRequest;
use crate::fees::FeeSettings;
use crate::state::Network;
use crate::types::Address;
use crate::u256::U256;

verus! {

/// What one provider answered to `eth_sendRawTransaction`.
#[derive(Debug)]
pub enum SendRawTransactionStatus {
    Submitted(Option<String>),
    NonceTooLow,
    NonceTooHigh,
    InsufficientFunds,
}

/// What the multi-provider adapter reported.
#[derive(Debug)]
pub enum MultiSendRawTransactionResult {
    Consistent(Result<SendRawTransactionStatus, RpcError>),
    Inconsistent,
}

/// Failure of a submission.
#[derive(Clone, Copy, Debug, PartialEq, Eq, Structural)]
pub enum SendRawTransactionError {
    NonceTooLow,
    NonceTooHigh,
    InconsistentResult,
    InsufficientFunds,
    RpcCallFailed,
}

/// The chain id a provider selection talks to.
pub open spec fn spec_chain_id(rs: RpcServices) -> u64 {
    match rs {
        RpcServices::EthSepolia => 11155111,
        RpcServices::EthMainnet => 1,
        RpcServices::Custom { chain_id } => chain_id,
    }
}

impl RpcServices {
    /// The chain id a provider selection talks to.
    pub fn chain_id(&self) -> (r: u64)
        ensures
            r == spec_chain_id(*self),
    {
        match self {
            RpcServices::EthSepolia => 11155111,
            RpcServices::Custom { chain_id } => *chain_id,
            RpcServices::EthMainnet => 1,
        }
    }
}

/// Fixes every field of the transaction to sign: the chain's id and
/// nonce, the transferred value, the recipient, the gas limit, the fee
/// settings and the calldata.
pub fn create_sign_request(
    n: &Network,
    value: U256,
    to: Option<Address>,
    from: Option<Address>,
    gas: U256,
    data: Option<Vec<u8>>,
    fee_estimates: &FeeSettings,
) -> (r: SignRequest)
    ensures
        r.chain_id == spec_chain_id(n.rpc_services),
        r.value == value,
        r.to is Some <==> to is Some,
        to is Some ==> r.to->0@ == to->0@,
        r.from is Some <==> from is Some,
        from is Some ==> r.from->0@ == from->0@,
        r.gas == gas,
        r.max_fee_per_gas == fee_estimates.max_fee_per_gas,
        r.max_priority_fee_per_gas == fee_estimates.max_priority_fee_per_gas,
        r.nonce == n.nonce,
        r.data is Some <==> data is Some,
        data is Some ==> r.data->0@ == data->0@,
{
    let chain_id = n.rpc_services.chain_id();
    SignRequest {
        chain_id,
        from,
        to,
        gas,
        max_fee_per_gas: fee_estimates.max_fee_per_gas,
        max_priority_fee_per_gas: fee_estimates.max_priority_fee_per_gas,
        value,
        nonce: n.nonce,
        data,
    }
}

/// Reads the multi-provider submission outcome: a consistent submission
/// yields the transaction hash (when the provider returned one), every
/// nonce or funds rejection is surfaced as its own error, a provider
/// error is a failed call, and an inconsistent answer is never applied.
pub fn interpret_send_raw_transaction(result: MultiSendRawTransactionResult) -> (r: Result<
    Option<String>,
    SendRawTransactionError,
>)
    ensures
        match result {
            MultiSendRawTransactionResult::Consistent(Result::Ok(
                SendRawTransactionStatus::Submitted(h),
            )) => r is Ok && (h is Some <==> r->Ok_0 is Some) && (h is Some ==> r->Ok_0->0@
                == h->0@),
            MultiSendRawTransactionResult::Consistent(Result::Ok(
                SendRawTransactionStatus::NonceTooLow,
            )) => r == Result::<Option<String>, SendRawTransactionError>::Err(
                SendRawTransactionError::NonceTooLow,
            ),
            MultiSendRawTransactionResult::Consistent(Result::Ok(
                SendRawTransactionStatus::NonceTooHigh,
            )) => r == Result::<Option<String>, SendRawTransactionError>::Err(
                SendRawTransactionError::NonceTooHigh,
            ),
            MultiSendRawTransactionResult::Consistent(Result::Ok(
                SendRawTransactionStatus::InsufficientFunds,
            )) => r == Result::<Option<String>, SendRawTransactionError>::Err(
                SendRawTransactionError::InsufficientFunds,
            ),
            MultiSendRawTransactionResult::Consistent(Result::Err(_)) => r == Result::<
                Option<String>,
                SendRawTransactionError,
            >::Err(SendRawTransactionError::RpcCallFailed),
            MultiSendRawTransactionResult::Inconsistent => r == Result::<
                Option<String>,
                SendRawTransactionError,
            >::Err(SendRawTransactionError::InconsistentResult),
        },
{
    match result {
        MultiSendRawTransactionResult::Consistent(Ok(SendRawTransactionStatus::Submitted(h))) => {
            Ok(h)
        },
        MultiSendRawTransactionResult::Consistent(Ok(SendRawTransactionStatus::NonceTooLow)) => Err(
            SendRawTransactionError::NonceTooLow,
        ),
        MultiSendRawTransactionResult::Consistent(Ok(SendRawTransactionStatus::NonceTooHigh)) => Err(
            SendRawTransactionError::NonceTooHigh,
        ),
        MultiSendRawTransactionResult::Consistent(
            Ok(SendRawTransactionStatus::InsufficientFunds),
        ) => Err(SendRawTransactionError::InsufficientFunds),
        MultiSendRawTransactionResult::Consistent(Err(_)) => Err(
            SendRawTransactionError::RpcCallFailed,
        ),
        MultiSendRawTransactionResult::Inconsistent => Err(
            SendRawTransactionError::InconsistentResult,
        ),
    }
}

} // verus!
