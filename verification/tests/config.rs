use harmonize::chain_fusion::{BlockTag, RpcService, RpcServices, TaskType};
use harmonize::state::{
    get_endpoint_address, get_last_processed_block, get_last_scraped_block, get_owner,
    set_network_config, set_owner, Init, NetworkMut, State,
};
use harmonize::types::{Address, UserId};

fn empty_state() -> State {
    State::from_init(Init {
        environment: String::from("local"),
        initial_owner: UserId::new(vec![1; 29]),
        ecdsa_key_id: harmonize::state::EcdsaKeyId {
            name: String::from("dfx_test_key"),
        },
        networks: vec![],
    })
}

fn full_patch(chain: u32) -> NetworkMut {
    let mut m = NetworkMut::new();
    m.rpc_services = Some(RpcServices::Custom {
        chain_id: chain as u64,
    });
    m.rpc_service = Some(RpcService {
        url: String::from("http://localhost:8545"),
    });
    m.last_scraped_block_number = Some(1000);
    m.get_logs_address = Some(vec![Address::new([0xE1; 20])]);
    m.block_tag = Some(BlockTag::Finalized);
    m
}

/// A full configuration creates the chain; getters read it back.
#[test]
fn network_config_creates_and_reads_back() {
    let mut s = empty_state();
    set_network_config(&mut s, 11155111, full_patch(11155111)).unwrap();
    assert_eq!(
        get_endpoint_address(&s, 11155111).bytes,
        [0xE1; 20]
    );
    assert_eq!(get_last_scraped_block(&s, 11155111), 1000);
    assert_eq!(get_last_processed_block(&s, 11155111), 0);
}

/// An incomplete configuration for a fresh chain is refused.
#[test]
fn incomplete_config_for_new_chain_is_refused() {
    let mut s = empty_state();
    let mut m = NetworkMut::new();
    m.last_scraped_block_number = Some(5);
    assert!(set_network_config(&mut s, 1, m).is_err());
}

/// A patch of an existing chain keeps the unpatched fields.
#[test]
fn patch_keeps_unpatched_fields() {
    let mut s = empty_state();
    set_network_config(&mut s, 1, full_patch(1)).unwrap();
    let mut m = NetworkMut::new();
    m.nonce = Some(9);
    set_network_config(&mut s, 1, m).unwrap();
    assert_eq!(get_last_scraped_block(&s, 1), 1000);
    let n = s.take_network(1);
    assert_eq!(n.nonce, harmonize::u256::U256::from_u64(9));
    assert_eq!(n.block_tag, BlockTag::Finalized);
    s.put_network(1, n);
}

/// Owner handover.
#[test]
fn owner_can_be_replaced() {
    let mut s = empty_state();
    assert_eq!(get_owner(&s).bytes, vec![1; 29]);
    set_owner(&mut s, UserId::new(vec![2; 29]));
    assert_eq!(get_owner(&s).bytes, vec![2; 29]);
}

/// The task guard admits each stage once and frees it on release.
#[test]
fn task_guard_is_exclusive_per_kind() {
    let mut s = empty_state();
    assert!(s.try_begin_task(TaskType::ScrapeLogs));
    assert!(!s.try_begin_task(TaskType::ScrapeLogs));
    assert!(s.try_begin_task(TaskType::ProcessLogs));
    s.end_task(TaskType::ScrapeLogs);
    assert!(s.try_begin_task(TaskType::ScrapeLogs));
    s.end_task(TaskType::ScrapeLogs);
    s.end_task(TaskType::ProcessLogs);
}

/// State-level transfers move value between users and wrap errors.
#[test]
fn state_level_transfers() {
    let mut s = empty_state();
    let a = UserId::new(vec![0xA; 29]);
    let b = UserId::new(vec![0xB; 29]);
    let token = Address::new([0x71; 20]);
    s.wallets
        .credit(
            &a,
            &harmonize::wallet::AssetKey::Erc20 {
                chain_id: 5,
                token,
            },
            harmonize::u256::U256::from_u64(500),
        )
        .unwrap();
    harmonize::wallet::transfer_erc20(&mut s, &a, &b, 5, &token, harmonize::u256::U256::from_u64(200))
        .unwrap();
    assert_eq!(
        harmonize::wallet::get_erc20_balance(&s, &a, 5, &token),
        harmonize::u256::U256::from_u64(300)
    );
    assert_eq!(
        harmonize::wallet::get_erc20_balance(&s, &b, 5, &token),
        harmonize::u256::U256::from_u64(200)
    );
    assert!(
        harmonize::wallet::transfer_eth(&mut s, &a, &b, 5, harmonize::u256::U256::from_u64(1))
            .is_err()
    );
}
