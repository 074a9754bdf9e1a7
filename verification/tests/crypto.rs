use ethers_core::k256::ecdsa::SigningKey;
use ethers_core::k256::elliptic_curve::sec1::ToEncodedPoint;
use harmonize::ecdsa::{find_recovery_id, keccak256};
use harmonize::evm_signer::{
    assemble_signed_transaction, pubkey_bytes_to_address, unsigned_tx_hash, SignRequest,
};
use harmonize::job::{DepositErc20Event, DepositEthEvent};
use harmonize::types::{Address, H160Ext, H256Ext};
use harmonize::u256::U256;
use tiny_keccak::Hasher;

fn reference_keccak(bytes: &[u8]) -> [u8; 32] {
    let mut out = [0u8; 32];
    let mut hasher = tiny_keccak::Keccak::v256();
    hasher.update(bytes);
    hasher.finalize(&mut out);
    out
}

/// The event topics are the hex-prefixed Keccak-256 of the canonical
/// signatures, computed independently here.
#[test]
fn topics_match_an_independent_keccak() {
    let eth = format!(
        "0x{}",
        hex::encode(reference_keccak(b"DepositEth(address,bytes32,uint256)"))
    );
    assert_eq!(DepositEthEvent::topic(), eth);
    let erc20 = format!(
        "0x{}",
        hex::encode(reference_keccak(b"DepositErc20(address,bytes32,address,uint256)"))
    );
    assert_eq!(DepositErc20Event::topic(), erc20);
}

/// The library's digest wrapper agrees with a direct call.
#[test]
fn keccak_wrapper_matches_reference() {
    let digest = keccak256(b"hello");
    assert_eq!(digest.as_slice(), reference_keccak(b"hello").as_slice());
}

/// A signature made with a known key recovers under the parity the
/// library finds.
#[test]
fn recovery_id_is_found_for_a_real_signature() {
    let sk = SigningKey::from_slice(&[0x42; 32]).unwrap();
    let vk = sk.verifying_key();
    let pk65 = vk.to_encoded_point(false).as_bytes().to_vec();
    let digest = reference_keccak(b"message to sign");
    let (sig, recid) = sk.sign_prehash_recoverable(&digest).unwrap();
    let sig64 = sig.to_bytes();
    let parity = find_recovery_id(&digest, sig64.as_slice(), &pk65).unwrap();
    assert_eq!(parity, recid.to_byte());
}

/// The address derived from a public key matches ethers-core's own
/// derivation.
#[test]
fn pubkey_address_matches_ethers() {
    let sk = SigningKey::from_slice(&[0x07; 32]).unwrap();
    let vk = sk.verifying_key();
    let pk65 = vk.to_encoded_point(false).as_bytes().to_vec();
    let ours = pubkey_bytes_to_address(&pk65).unwrap();
    let theirs = ethers_core::utils::public_key_to_address(vk);
    assert_eq!(ours.bytes, theirs.0);
    assert_eq!(ours.to_repr(), format!("{:?}", theirs));
}

fn sample_request() -> SignRequest {
    SignRequest {
        chain_id: 1,
        from: None,
        to: Some(Address::new([0x0B; 20])),
        gas: U256::from_u64(21_000),
        max_fee_per_gas: U256::from_u64(2_000_000_000),
        max_priority_fee_per_gas: U256::from_u64(1_000_000_000),
        value: U256::from_u64(12345),
        nonce: U256::from_u64(7),
        data: None,
    }
}

fn reference_tx(req: &SignRequest) -> ethers_core::types::transaction::eip1559::Eip1559TransactionRequest {
    ethers_core::types::transaction::eip1559::Eip1559TransactionRequest {
        chain_id: Some(ethers_core::types::U64::from(req.chain_id)),
        from: None,
        to: req
            .to
            .as_ref()
            .map(|a| ethers_core::types::NameOrAddress::Address(ethers_core::types::H160(a.bytes))),
        gas: Some(ethers_core::types::U256([req.gas.l0, req.gas.l1, req.gas.l2, req.gas.l3])),
        value: Some(ethers_core::types::U256([
            req.value.l0,
            req.value.l1,
            req.value.l2,
            req.value.l3,
        ])),
        data: None,
        nonce: Some(ethers_core::types::U256([
            req.nonce.l0,
            req.nonce.l1,
            req.nonce.l2,
            req.nonce.l3,
        ])),
        access_list: Default::default(),
        max_priority_fee_per_gas: Some(ethers_core::types::U256([
            req.max_priority_fee_per_gas.l0,
            req.max_priority_fee_per_gas.l1,
            req.max_priority_fee_per_gas.l2,
            req.max_priority_fee_per_gas.l3,
        ])),
        max_fee_per_gas: Some(ethers_core::types::U256([
            req.max_fee_per_gas.l0,
            req.max_fee_per_gas.l1,
            req.max_fee_per_gas.l2,
            req.max_fee_per_gas.l3,
        ])),
    }
}

/// The signing digest is the Keccak-256 of the type byte and the RLP
/// encoding ethers-core produces for the same transaction.
#[test]
fn unsigned_digest_matches_ethers_rlp() {
    let req = sample_request();
    let mut bytes = reference_tx(&req).rlp().to_vec();
    bytes.insert(0, 2u8);
    let expected = reference_keccak(&bytes);
    assert_eq!(unsigned_tx_hash(&req).as_slice(), expected.as_slice());
}

/// A transaction signed by a known key assembles into the raw text
/// ethers-core produces for the same signature and parity.
#[test]
fn assembled_transaction_matches_ethers() {
    let req = sample_request();
    let sk = SigningKey::from_slice(&[0x21; 32]).unwrap();
    let vk = sk.verifying_key();
    let pk65 = vk.to_encoded_point(false).as_bytes().to_vec();
    let digest = unsigned_tx_hash(&req);
    let (sig, recid) = sk.sign_prehash_recoverable(digest.as_slice()).unwrap();
    let sig64 = sig.to_bytes().to_vec();

    let ours = assemble_signed_transaction(&req, &sig64, &pk65).unwrap();

    let signature = ethers_core::types::Signature {
        v: recid.to_byte() as u64,
        r: ethers_core::types::U256::from_big_endian(&sig64[0..32]),
        s: ethers_core::types::U256::from_big_endian(&sig64[32..64]),
    };
    let mut bytes = reference_tx(&req).rlp_signed(&signature).to_vec();
    bytes.insert(0, 2u8);
    let theirs = format!("0x{}", hex::encode(&bytes));
    assert_eq!(ours, theirs);
}

/// The address text form is the 0x-prefixed lowercase hex of the bytes.
#[test]
fn address_repr_is_lowercase_hex() {
    let a = Address::new([
        0xDE, 0xAD, 0xBE, 0xEF, 0x00, 0x01, 0x02, 0x03, 0x04, 0x05, 0x06, 0x07, 0x08, 0x09, 0x0A,
        0x0B, 0x0C, 0x0D, 0x0E, 0x0F,
    ]);
    assert_eq!(a.to_repr(), "0xdeadbeef000102030405060708090a0b0c0d0e0f");
}

/// Parsing hex amounts accepts both cases and an optional prefix.
#[test]
fn parse_hex_amounts() {
    let v = U256::parse_hex("0x3e8", 2).unwrap();
    assert_eq!(v, U256::from_u64(1000));
    let w = U256::parse_hex("FF", 0).unwrap();
    assert_eq!(w, U256::from_u64(255));
    assert!(U256::parse_hex("xyz", 0).is_none());
    assert!(U256::parse_hex("", 0).is_none());
}

/// The amount text form strips leading zeros but keeps one digit.
#[test]
fn amount_repr_is_minimal_hex() {
    assert_eq!(U256::zero().to_repr(), "0x0");
    assert_eq!(U256::from_u64(255).to_repr(), "0xff");
    assert_eq!(U256::from_u64(4096).to_repr(), "0x1000");
    assert_eq!(U256::max_value().to_repr().len(), 2 + 64);
}
