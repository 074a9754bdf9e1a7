use harmonize::chain_fusion::{BlockTag, RpcService, RpcServices};
use harmonize::eth_send_raw_transaction::{
    interpret_send_raw_transaction, MultiSendRawTransactionResult, SendRawTransactionStatus,
};
use harmonize::fees::{
    estimate_transaction_fees, interpret_fee_history_result, FeeHistory, FeeHistoryError,
    FeeHistoryResult, MultiFeeHistoryResult, FeeSettings,
};
use harmonize::safe::{
    erc20_transfer_data, escrow_debit, interpret_receipt_result, register_submit_status,
    settle_payment, withdraw_eth_begin, withdraw_eth_compensate, GetTransactionReceiptResult,
    MultiGetTransactionReceiptResult, TransactionError, TransactionReceipt,
};
use harmonize::state::{Init, NetworkInit, State};
use harmonize::types::{Address, UserId};
use harmonize::u256::U256;
use harmonize::wallet::{get_eth_balance, AssetKey};

fn new_state(chain: u32) -> State {
    State::from_init(Init {
        environment: String::from("local"),
        initial_owner: UserId::new(vec![9; 29]),
        ecdsa_key_id: harmonize::state::EcdsaKeyId {
            name: String::from("dfx_test_key"),
        },
        networks: vec![(
            chain,
            NetworkInit {
                rpc_services: RpcServices::EthMainnet,
                rpc_service: RpcService {
                    url: String::from("http://localhost:8545"),
                },
                last_scraped_block_number: 0,
                get_logs_address: vec![Address::new([0xE1; 20])],
                block_tag: BlockTag::Latest,
            },
        )],
    })
}

fn pow10(e: u32) -> U256 {
    let mut v = U256::from_u64(1);
    for _ in 0..e {
        v = v.checked_mul_u64(10).unwrap();
    }
    v
}

fn receipt(gas_used: u64, price: u64) -> TransactionReceipt {
    TransactionReceipt {
        transaction_hash: String::from("0xfeed"),
        block_number: 123,
        status: 1,
        gas_used,
        effective_gas_price: U256::from_u64(price),
    }
}

/// A successful withdrawal debits the value plus the gas actually used
/// and refunds the rest of the escrow.
#[test]
fn withdrawal_success_refund() {
    let chain: u32 = 1;
    let mut s = new_state(chain);
    let u1 = UserId::new(vec![1; 29]);
    let key = AssetKey::Eth { chain_id: chain };
    s.wallets.credit(&u1, &key, pow10(18)).unwrap();

    // Value transfer of 10^17 wei with a worst-case gas cost of 10^15.
    withdraw_eth_begin(&mut s, &u1, chain, pow10(17)).unwrap();
    let fees = FeeSettings {
        max_fee_per_gas: U256::from_u64(600_000_000),
        max_priority_fee_per_gas: U256::from_u64(400_000_000),
    };
    let max_gas_cost = escrow_debit(&mut s.wallets, &u1, chain, 1_000_000, &fees).unwrap();
    assert_eq!(max_gas_cost, pow10(15));

    let mut n = s.take_network(chain);
    let status = interpret_send_raw_transaction(MultiSendRawTransactionResult::Consistent(Ok(
        SendRawTransactionStatus::Submitted(Some(String::from("0xfeed"))),
    )));
    let hash = register_submit_status(&mut n, status).unwrap();
    assert_eq!(hash, "0xfeed");
    assert_eq!(n.nonce, U256::from_u64(1));
    s.put_network(chain, n);

    let polled = interpret_receipt_result(MultiGetTransactionReceiptResult::Consistent(
        GetTransactionReceiptResult::Found(Some(receipt(21_000, 1_000_000_000))),
    ));
    settle_payment(&mut s.wallets, &u1, chain, max_gas_cost, polled).unwrap();

    // 10^18 - 10^17 - 21000 * 10^9
    let expected = pow10(18)
        .sub(&pow10(17))
        .sub(&U256::from_u64(21_000).checked_mul_u64(1_000_000_000).unwrap());
    assert_eq!(get_eth_balance(&s, &u1, chain), expected);
}

/// A withdrawal whose submission fails compensates the user in full.
#[test]
fn withdrawal_failure_compensation() {
    let chain: u32 = 1;
    let mut s = new_state(chain);
    let u1 = UserId::new(vec![1; 29]);
    let key = AssetKey::Eth { chain_id: chain };
    s.wallets.credit(&u1, &key, pow10(18)).unwrap();

    withdraw_eth_begin(&mut s, &u1, chain, pow10(17)).unwrap();
    let fees = FeeSettings {
        max_fee_per_gas: U256::from_u64(600_000_000),
        max_priority_fee_per_gas: U256::from_u64(400_000_000),
    };
    let max_gas_cost = escrow_debit(&mut s.wallets, &u1, chain, 1_000_000, &fees).unwrap();

    let mut n = s.take_network(chain);
    let status = interpret_send_raw_transaction(MultiSendRawTransactionResult::Consistent(Ok(
        SendRawTransactionStatus::InsufficientFunds,
    )));
    let submit = register_submit_status(&mut n, status);
    assert!(submit.is_err());
    assert_eq!(n.nonce, U256::zero());
    s.put_network(chain, n);

    let settled = settle_payment(
        &mut s.wallets,
        &u1,
        chain,
        max_gas_cost,
        Err(TransactionError::RpcCallFailed),
    );
    assert!(settled.is_err());
    withdraw_eth_compensate(&mut s, &u1, chain, pow10(17)).unwrap();

    assert_eq!(get_eth_balance(&s, &u1, chain), pow10(18));
}

/// A too-short escrow aborts the withdrawal without side effects.
#[test]
fn escrow_debit_without_funds_has_no_side_effects() {
    let chain: u32 = 1;
    let mut s = new_state(chain);
    let u1 = UserId::new(vec![1; 29]);
    let key = AssetKey::Eth { chain_id: chain };
    s.wallets.credit(&u1, &key, U256::from_u64(10)).unwrap();
    let fees = FeeSettings {
        max_fee_per_gas: U256::from_u64(600_000_000),
        max_priority_fee_per_gas: U256::from_u64(400_000_000),
    };
    let r = escrow_debit(&mut s.wallets, &u1, chain, 1_000_000, &fees);
    assert!(matches!(r, Err(TransactionError::InsufficientFunds)));
    assert_eq!(get_eth_balance(&s, &u1, chain), U256::from_u64(10));
}

/// A fee history with fewer entries than the window defaults the median
/// tip to zero.
#[test]
fn fee_history_shorter_than_window_defaults_median_to_zero() {
    let history = FeeHistory {
        oldest_block: 100,
        base_fee_per_gas: vec![U256::from_u64(1_000_000)],
        reward: vec![vec![U256::from_u64(7)]],
    };
    let fs = estimate_transaction_fees(&history, 9).unwrap();
    assert_eq!(fs.max_priority_fee_per_gas, U256::zero());
    // The floor applies: median 0 plus a small base stays below 1.5 gwei.
    assert_eq!(fs.max_fee_per_gas, U256::from_u64(1_500_000_000));
}

/// With a full window the median percentile tip and the base fee are
/// used exactly.
#[test]
fn fee_history_full_window_takes_the_median() {
    let rewards: Vec<Vec<U256>> = vec![9, 1, 8, 2, 7, 3, 6, 4, 5]
        .into_iter()
        .map(|v: u64| vec![U256::from_u64(v * 1_000_000_000)])
        .collect();
    let history = FeeHistory {
        oldest_block: 100,
        base_fee_per_gas: vec![U256::from_u64(2_000_000_000)],
        reward: rewards,
    };
    let fs = estimate_transaction_fees(&history, 9).unwrap();
    // Sorted tips are 1..9 gwei; the entry at index (9-1)/2 is 5 gwei.
    assert_eq!(fs.max_priority_fee_per_gas, U256::from_u64(5_000_000_000));
    assert_eq!(fs.max_fee_per_gas, U256::from_u64(7_000_000_000));
}

/// An empty fee history is `NoHistory`.
#[test]
fn fee_history_without_base_fees_is_an_error() {
    let history = FeeHistory {
        oldest_block: 0,
        base_fee_per_gas: vec![],
        reward: vec![],
    };
    assert!(estimate_transaction_fees(&history, 9).is_err());
}

/// The ERC-20 transfer calldata carries the selector, the padded
/// recipient and the big-endian amount.
#[test]
fn erc20_transfer_calldata_layout() {
    let to = Address::new([0x0B; 20]);
    let data = erc20_transfer_data(&to, &U256::from_u64(1000));
    assert_eq!(data.len(), 4 + 32 + 32);
    // Selector: first four bytes of keccak256("transfer(address,uint256)").
    assert_eq!(&data[0..4], &[0xa9, 0x05, 0x9c, 0xbb]);
    assert_eq!(&data[4..16], &[0u8; 12]);
    assert_eq!(&data[16..36], &[0x0B; 20]);
    let mut amount = [0u8; 32];
    amount[30] = 0x03;
    amount[31] = 0xe8;
    assert_eq!(&data[36..68], &amount);
}

/// The median index of the fee window.
#[test]
fn median_index_is_the_middle() {
    assert_eq!(harmonize::fees::median_index(9), 4);
    assert_eq!(harmonize::fees::median_index(1), 0);
    assert_eq!(harmonize::fees::median_index(2), 0);
}

/// The fee-history outcome classification: a consistent history is
/// returned, absence and inconsistency are their own errors.
#[test]
fn fee_history_outcome_classification() {
    let history = FeeHistory {
        oldest_block: 5,
        base_fee_per_gas: vec![U256::from_u64(7)],
        reward: vec![vec![U256::from_u64(1)]],
    };
    let ok = interpret_fee_history_result(MultiFeeHistoryResult::Consistent(
        FeeHistoryResult::Fetched(Some(history)),
    ))
    .unwrap();
    assert_eq!(ok.oldest_block, 5);
    assert!(matches!(
        interpret_fee_history_result(MultiFeeHistoryResult::Consistent(
            FeeHistoryResult::Fetched(None)
        )),
        Err(FeeHistoryError::NoHistory)
    ));
    assert!(interpret_fee_history_result(MultiFeeHistoryResult::Inconsistent).is_err());
}
