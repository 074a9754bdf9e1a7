use harmonize::chain_fusion::{BlockTag, LogEntry, RpcService, RpcServices};
use harmonize::eth_get_logs::{
    get_logs_addresses, handle_get_logs_result, next_scrape_range,
    update_last_observed_block_number,
    GetBlockByNumberResult, GetLogsError, HttpOutcallError, MultiGetBlockByNumberResult,
    RejectionCode, RpcError, ScrapeStep,
};
use harmonize::job::{process_logs, DepositErc20Event, Event};
use harmonize::state::{Init, NetworkInit, State};
use harmonize::types::{Address, UserId};
use harmonize::u256::U256;
use harmonize::wallet::get_erc20_balance;

fn endpoint() -> Address {
    Address::new([0xE1; 20])
}

fn new_state(chain: u32, last_scraped: u64) -> State {
    let init = Init {
        environment: String::from("local"),
        initial_owner: UserId::new(vec![9; 29]),
        ecdsa_key_id: harmonize::state::EcdsaKeyId {
            name: String::from("dfx_test_key"),
        },
        networks: vec![(
            chain,
            NetworkInit {
                rpc_services: RpcServices::Custom {
                    chain_id: chain as u64,
                },
                rpc_service: RpcService {
                    url: String::from("http://localhost:8545"),
                },
                last_scraped_block_number: last_scraped,
                get_logs_address: vec![endpoint()],
                block_tag: BlockTag::Latest,
            },
        )],
    };
    State::from_init(init)
}

fn too_large_error() -> GetLogsError {
    GetLogsError::RpcError(RpcError::HttpOutcallError(HttpOutcallError::IcError {
        code: RejectionCode::SysFatal,
        message: String::from("response exceeds size limit of provider"),
    }))
}

fn erc20_log(amount: u64, block: u64, tx: &str, index: u64) -> LogEntry {
    let ev = DepositErc20Event {
        sender: Address::new([0xAA; 20]),
        recipient: UserId::new(vec![0x11; 29]),
        token: Address::new([0x71; 20]),
        amount: U256::from_u64(amount),
    };
    ev.encode(&endpoint(), block, tx, index)
}

/// One scrape of one ERC-20 deposit log ends with the ledger credited
/// and the processed cursor at the log's block.
#[test]
fn deposit_credits_ledger_after_one_scrape() {
    let chain: u32 = 11155111;
    let mut s = new_state(chain, 99);
    let mut n = s.take_network(chain);
    let observed =
        update_last_observed_block_number(&mut n, MultiGetBlockByNumberResult::Consistent(
            GetBlockByNumberResult::Block(100),
        ))
        .unwrap()
        .unwrap();
    assert_eq!(observed, 100);
    let (from, to) = next_scrape_range(n.last_scraped_block_number, observed).unwrap();
    assert_eq!((from, to), (100, 100));
    let step = handle_get_logs_result(&mut n, from, to, Ok(vec![erc20_log(1000, 100, "0xabc", 0)]));
    assert_eq!(step, ScrapeStep::Advanced { scraped_to: 100 });
    s.put_network(chain, n);
    process_logs(&mut s, chain);
    let mut n = s.take_network(chain);
    n.mark_processed_up_to(100);
    s.put_network(chain, n);
    let bal = get_erc20_balance(&s, &UserId::new(vec![0x11; 29]), chain, &Address::new([0x71; 20]));
    assert_eq!(bal, U256::from_u64(1000));
    assert!(harmonize::state::get_last_processed_block(&s, chain) >= 100);
}

/// The same log served twice across two scrapes credits the ledger
/// once.
#[test]
fn replayed_log_is_not_double_credited() {
    let chain: u32 = 11155111;
    let mut s = new_state(chain, 99);
    let log = || erc20_log(1000, 100, "0xabc", 0);

    let mut n = s.take_network(chain);
    update_last_observed_block_number(&mut n, MultiGetBlockByNumberResult::Consistent(
        GetBlockByNumberResult::Block(100),
    ))
    .unwrap();
    handle_get_logs_result(&mut n, 100, 100, Ok(vec![log()]));
    s.put_network(chain, n);
    process_logs(&mut s, chain);

    // A later scrape of an overlapping range returns the same log again.
    let mut n = s.take_network(chain);
    n.last_scraped_block_number = 99;
    handle_get_logs_result(&mut n, 100, 100, Ok(vec![log()]));
    s.put_network(chain, n);
    process_logs(&mut s, chain);

    let bal = get_erc20_balance(&s, &UserId::new(vec![0x11; 29]), chain, &Address::new([0x71; 20]));
    assert_eq!(bal, U256::from_u64(1000));
}

/// A single block whose logs exceed the provider limit is skipped and
/// the cursor advances past it.
#[test]
fn oversized_single_block_is_skipped() {
    let chain: u32 = 1;
    let mut s = new_state(chain, 41);
    let mut n = s.take_network(chain);
    update_last_observed_block_number(&mut n, MultiGetBlockByNumberResult::Consistent(
        GetBlockByNumberResult::Block(42),
    ))
    .unwrap();
    let step = handle_get_logs_result(&mut n, 42, 42, Err(too_large_error()));
    assert_eq!(step, ScrapeStep::Advanced { scraped_to: 42 });
    assert_eq!(n.last_scraped_block_number, 42);
    assert_eq!(n.skipped_blocks, vec![42]);
    s.put_network(chain, n);
}

/// A provider that rejects ranges above 250 blocks is handled by
/// halving until the range fits; the scrape still reaches the target.
#[test]
fn adaptive_narrowing_reaches_the_target() {
    let chain: u32 = 1;
    let mut s = new_state(chain, 999);
    let mut n = s.take_network(chain);
    let target = update_last_observed_block_number(
        &mut n,
        MultiGetBlockByNumberResult::Consistent(GetBlockByNumberResult::Block(1500)),
    )
    .unwrap()
    .unwrap();
    let mut attempts = 0;
    while let Some((from, mut to)) = next_scrape_range(n.last_scraped_block_number, target) {
        loop {
            attempts += 1;
            assert!(attempts < 100);
            let result = if to - from + 1 > 250 {
                Err(too_large_error())
            } else {
                Ok(vec![])
            };
            match handle_get_logs_result(&mut n, from, to, result) {
                ScrapeStep::Advanced { .. } => break,
                ScrapeStep::Narrow { new_to } => {
                    assert!(new_to < to);
                    to = new_to;
                }
                ScrapeStep::Abort => panic!("scrape aborted"),
            }
        }
    }
    assert_eq!(n.last_scraped_block_number, 1500);
    assert!(n.skipped_blocks.is_empty());
    s.put_network(chain, n);
}

/// An abortive failure leaves the cursor untouched.
#[test]
fn other_errors_abort_without_moving_the_cursor() {
    let chain: u32 = 1;
    let mut s = new_state(chain, 10);
    let mut n = s.take_network(chain);
    update_last_observed_block_number(&mut n, MultiGetBlockByNumberResult::Consistent(
        GetBlockByNumberResult::Block(20),
    ))
    .unwrap();
    let step = handle_get_logs_result(
        &mut n,
        11,
        20,
        Err(GetLogsError::InconsistentResults),
    );
    assert_eq!(step, ScrapeStep::Abort);
    assert_eq!(n.last_scraped_block_number, 10);
    s.put_network(chain, n);
}

/// An inconsistent block-height answer is surfaced and stores nothing.
#[test]
fn inconsistent_block_number_is_an_error() {
    let chain: u32 = 1;
    let mut s = new_state(chain, 10);
    let mut n = s.take_network(chain);
    let r = update_last_observed_block_number(&mut n, MultiGetBlockByNumberResult::Inconsistent);
    assert!(r.is_err());
    assert_eq!(n.last_observed_block_number, None);
    s.put_network(chain, n);
}

/// Decoding an encoded event returns the event, for both variants.
#[test]
fn decode_of_encode_round_trips() {
    let eth = harmonize::job::DepositEthEvent {
        sender: Address::new([0xAA; 20]),
        recipient: UserId::new(vec![0x42; 29]),
        amount: U256::from_u128(12345678901234567890u128),
    };
    let entry = eth.encode(&endpoint(), 7, "0xdead", 3);
    match Event::from_log_entry(&entry).unwrap() {
        Event::DepositEth(back) => {
            assert_eq!(back.sender.bytes, eth.sender.bytes);
            assert_eq!(back.recipient.bytes, eth.recipient.bytes);
            assert_eq!(back.amount, eth.amount);
        }
        _ => panic!("wrong variant"),
    }

    let erc = DepositErc20Event {
        sender: Address::new([0x01; 20]),
        recipient: UserId::new(vec![0x02; 29]),
        token: Address::new([0x03; 20]),
        amount: U256::from_u64(1000),
    };
    let entry = erc.encode(&endpoint(), 100, "0xbeef", 0);
    match Event::from_log_entry(&entry).unwrap() {
        Event::DepositErc20(back) => {
            assert_eq!(back.sender.bytes, erc.sender.bytes);
            assert_eq!(back.recipient.bytes, erc.recipient.bytes);
            assert_eq!(back.token.bytes, erc.token.bytes);
            assert_eq!(back.amount, erc.amount);
        }
        _ => panic!("wrong variant"),
    }
}

/// An unknown first topic is rejected with its signature reported.
#[test]
fn unknown_signature_is_rejected() {
    let entry = LogEntry {
        address: String::from("0xe1"),
        topics: vec![String::from("0x00")],
        data: String::from("0x00"),
        block_number: Some(1),
        transaction_hash: Some(String::from("0x01")),
        log_index: Some(0),
    };
    assert!(Event::from_log_entry(&entry).is_err());
}

/// `is_response_too_large` looks for the fatal size-limit rejection.
#[test]
fn response_too_large_detection() {
    assert!(harmonize::eth_get_logs::is_response_too_large(
        &RejectionCode::SysFatal,
        "body size limit reached"
    ));
    assert!(!harmonize::eth_get_logs::is_response_too_large(
        &RejectionCode::SysTransient,
        "body size limit reached"
    ));
    assert!(!harmonize::eth_get_logs::is_response_too_large(
        &RejectionCode::SysFatal,
        "connection reset"
    ));
    let e = HttpOutcallError::IcError {
        code: RejectionCode::SysFatal,
        message: String::from("total size limit exceeded"),
    };
    assert!(e.is_response_too_large());
}

/// A native deposit is credited to the recipient's native balance, and
/// the same source twice in one response is queued once.
#[test]
fn native_deposit_credits_once_per_source() {
    let chain: u32 = 1;
    let mut s = new_state(chain, 9);
    let ev = harmonize::job::DepositEthEvent {
        sender: Address::new([0xAA; 20]),
        recipient: UserId::new(vec![0x33; 29]),
        amount: U256::from_u64(777),
    };
    let log = ev.encode(&endpoint(), 10, "0xdd", 0);
    let log_again = ev.encode(&endpoint(), 10, "0xdd", 0);
    let mut n = s.take_network(chain);
    update_last_observed_block_number(&mut n, MultiGetBlockByNumberResult::Consistent(
        GetBlockByNumberResult::Block(10),
    ))
    .unwrap();
    handle_get_logs_result(&mut n, 10, 10, Ok(vec![log, log_again]));
    assert_eq!(n.logs_to_process.len(), 1);
    s.put_network(chain, n);
    process_logs(&mut s, chain);
    let bal = harmonize::wallet::get_eth_balance(&s, &UserId::new(vec![0x33; 29]), chain);
    assert_eq!(bal, U256::from_u64(777));
}

/// Without a watched endpoint no query is made: the guard yields no
/// address list; with endpoints it yields their text forms.
#[test]
fn empty_watch_list_queries_nothing() {
    let chain: u32 = 1;
    let mut s = new_state(chain, 10);
    let mut n = s.take_network(chain);
    let some = get_logs_addresses(&n);
    assert_eq!(some, Some(vec![String::from("0xe1e1e1e1e1e1e1e1e1e1e1e1e1e1e1e1e1e1e1e1")]));
    n.get_logs_address.clear();
    assert_eq!(get_logs_addresses(&n), None);
    s.put_network(chain, n);
}

/// A height behind the scrape cursor is not stored: the cursor order
/// stays an invariant and the stale height is refreshed next time.
#[test]
fn regressed_height_is_not_stored() {
    let chain: u32 = 1;
    let mut s = new_state(chain, 100);
    let mut n = s.take_network(chain);
    update_last_observed_block_number(&mut n, MultiGetBlockByNumberResult::Consistent(
        GetBlockByNumberResult::Block(120),
    ))
    .unwrap();
    assert_eq!(n.last_observed_block_number, Some(120));
    n.last_scraped_block_number = 120;
    let r = update_last_observed_block_number(&mut n, MultiGetBlockByNumberResult::Consistent(
        GetBlockByNumberResult::Block(110),
    ))
    .unwrap();
    assert_eq!(r, Some(110));
    assert_eq!(n.last_observed_block_number, Some(120));
    s.put_network(chain, n);
}
