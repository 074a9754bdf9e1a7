//! EIP-1559 transaction signing.
//!
//! The unsigned transaction is RLP-encoded, prefixed with the type byte
//! 0x02 and hashed with Keccak-256; the external threshold-ECDSA oracle
//! signs that digest. The 64-byte `(r, s)` signature is completed with
//! the recovery parity found by trying both values against the engine's
//! cached public key. The oracle call itself is the driver's work; the
//! building, the parity search and the assembly are decided here.

use vstd::prelude::*;
use ethers_core::types as eth_types;
use ethers_core::types::transaction::eip1559::Eip1559TransactionRequest;
use crate::ecdsa::{keccak_of, recover_sec1_of, sec1_uncompressed_of};
use crate::hexs::hex_of_bytes;
use crate::types::Address;
use crate::u256::U256;

verus! {

/// Everything the engine fixes about a transaction before signing.
#[derive(Clone, Debug)]
pub struct SignRequest {
    pub chain_id: u64,
    pub from: Option<Address>,
    pub to: Option<Address>,
    pub gas: U256,
    pub max_fee_per_gas: U256,
    pub max_priority_fee_per_gas: U256,
    pub value: U256,
    pub nonce: U256,
    pub data: Option<Vec<u8>>,
}

/// Failure of the signing pipeline.
#[derive(Debug)]
pub enum SignerError {
    EcdsaError,
    NotInitialized,
    FailedToParsePublicKey,
    InvalidPointRepresentation,
    InvalidSignatureRepresentation,
    InvalidRecIdRepresentation,
    FailedToRecoverKey,
}

/// The RLP encoding of the unsigned EIP-1559 transaction built from a
/// request.
pub uninterp spec fn rlp_unsigned_of(req: SignRequest) -> Seq<u8>;

#[verifier::external_type_specification]
#[verifier::external_body]
pub struct ExEip1559TransactionRequest(
    ethers_core::types::transaction::eip1559::Eip1559TransactionRequest,
);

/// Builds the ethers-core transaction the two RLP encoders share, field
/// for field from the request; the amount limb order is the same on
/// both sides.
#[verifier::external_body]
fn build_eth_tx(q: &SignRequest) -> Eip1559TransactionRequest {
    let u = |v: &U256| eth_types::U256([v.l0, v.l1, v.l2, v.l3]);
    Eip1559TransactionRequest {
        chain_id: Some(q.chain_id.into()), from: None,
        to: q.to.as_ref().map(|a| eth_types::H160(a.bytes).into()),
        gas: Some(u(&q.gas)), value: Some(u(&q.value)), nonce: Some(u(&q.nonce)),
        data: q.data.as_ref().map(|d| d.clone().into()),
        access_list: Default::default(),
        max_priority_fee_per_gas: Some(u(&q.max_priority_fee_per_gas)),
        max_fee_per_gas: Some(u(&q.max_fee_per_gas)),
    }
}

/// Relies on ethers-core's `Eip1559TransactionRequest::rlp`: the
/// encoding is a function of the request's fields alone.
#[verifier::external_body]
fn rlp_encode_unsigned(req: &SignRequest) -> (r: Vec<u8>)
    ensures
        r@ == rlp_unsigned_of(*req),
{
    build_eth_tx(req).rlp().to_vec()
}

/// The RLP encoding of the transaction with its signature appended.
pub uninterp spec fn rlp_signed_of(req: SignRequest, sig: Seq<u8>, v: u64) -> Seq<u8>;

/// Relies on ethers-core's `Eip1559TransactionRequest::rlp_signed`: the
/// encoding is a function of the request, the 64 signature bytes and
/// the parity alone. The parity must be a raw y-parity bit: for any
/// other value the encoder would normalise it with a subtraction that
/// underflows.
#[verifier::external_body]
fn rlp_encode_signed(req: &SignRequest, sig: &[u8], v: u64) -> (r: Vec<u8>)
    requires
        sig@.len() == 64,
        v == 0 || v == 1,
    ensures
        r@ == rlp_signed_of(*req, sig@, v),
{
    let signature = eth_types::Signature {
        v,
        r: eth_types::U256::from_big_endian(&sig[0..32]),
        s: eth_types::U256::from_big_endian(&sig[32..64]),
    };
    build_eth_tx(req).rlp_signed(&signature).to_vec()
}

/// The digest the oracle signs: Keccak-256 of the type byte 0x02 and
/// the unsigned RLP encoding.
pub open spec fn spec_unsigned_tx_hash(req: SignRequest) -> Seq<u8> {
    keccak_of(seq![2u8] + rlp_unsigned_of(req))
}

/// Builds the 32-byte signing digest of a request.
pub fn unsigned_tx_hash(req: &SignRequest) -> (r: Vec<u8>)
    ensures
        r@ == spec_unsigned_tx_hash(*req),
        r@.len() == 32,
{
    let rlp = rlp_encode_unsigned(req);
    let mut bytes: Vec<u8> = Vec::new();
    bytes.push(2u8);
    let mut i: usize = 0;
    while i < rlp.len()
        invariant
            i <= rlp@.len(),
            bytes@ =~= seq![2u8] + rlp@.take(i as int),
        decreases rlp@.len() - i,
    {
        bytes.push(rlp[i]);
        proof {
            assert(bytes@ =~= seq![2u8] + rlp@.take(i + 1));
        }
        i += 1;
    }
    proof {
        assert(rlp@.take(rlp@.len() as int) =~= rlp@);
    }
    crate::ecdsa::keccak256(bytes.as_slice())
}

/// Finds the parity bit that lets the signature recover the engine's
/// cached public key; parities 0 and 1 are tried in turn.
pub fn y_parity(prehash: &[u8], sig: &[u8], pubkey: &[u8]) -> (r: Result<u64, SignerError>)
    ensures
        match r {
            Ok(p) => {
                &&& sec1_uncompressed_of(pubkey@) is Some
                &&& (p == 0 || p == 1)
                &&& recover_sec1_of(prehash@, sig@, p as u8) == Option::Some(
                    sec1_uncompressed_of(pubkey@)->0,
                )
                &&& p == 1 ==> recover_sec1_of(prehash@, sig@, 0) != Option::Some(
                    sec1_uncompressed_of(pubkey@)->0,
                )
            },
            Err(SignerError::FailedToParsePublicKey) => sec1_uncompressed_of(pubkey@) is None,
            Err(SignerError::FailedToRecoverKey) => {
                &&& sec1_uncompressed_of(pubkey@) is Some
                &&& recover_sec1_of(prehash@, sig@, 0) != Option::Some(
                    sec1_uncompressed_of(pubkey@)->0,
                )
                &&& recover_sec1_of(prehash@, sig@, 1) != Option::Some(
                    sec1_uncompressed_of(pubkey@)->0,
                )
            },
            Err(_) => false,
        },
{
    let pk65 = match crate::ecdsa::sec1_uncompress(pubkey) {
        Some(k) => k,
        None => {
            return Err(SignerError::FailedToParsePublicKey);
        },
    };
    match crate::ecdsa::find_recovery_id(prehash, sig, pk65.as_slice()) {
        Ok(p) => Ok(p as u64),
        Err(_) => Err(SignerError::FailedToRecoverKey),
    }
}

/// The wire text of a signed transaction: `0x` and the hex of the type
/// byte followed by the signed RLP encoding.
pub open spec fn spec_signed_tx_text(req: SignRequest, sig: Seq<u8>, v: u64) -> Seq<char> {
    seq!['0', 'x'] + hex_of_bytes(seq![2u8] + rlp_signed_of(req, sig, v))
}

/// Completes a signature from the oracle into the raw transaction text:
/// the parity is searched against the cached public key, and the signed
/// encoding is hex-written behind a `0x` prefix.
pub fn assemble_signed_transaction(req: &SignRequest, signature: &Vec<u8>, pubkey: &Vec<u8>) -> (r:
    Result<String, SignerError>)
    requires
        signature@.len() == 64,
    ensures
        ({
            let h = spec_unsigned_tx_hash(*req);
            let key = sec1_uncompressed_of(pubkey@);
            match r {
                Ok(t) => {
                    &&& key is Some
                    &&& exists|p: u64|
                        (p == 0 || p == 1) && recover_sec1_of(h, signature@, p as u8)
                            == Option::Some(key->0) && t@ == spec_signed_tx_text(
                            *req,
                            signature@,
                            p,
                        )
                },
                Err(SignerError::FailedToParsePublicKey) => key is None,
                Err(SignerError::FailedToRecoverKey) => {
                    &&& key is Some
                    &&& recover_sec1_of(h, signature@, 0) != Option::Some(key->0)
                    &&& recover_sec1_of(h, signature@, 1) != Option::Some(key->0)
                },
                Err(_) => false,
            }
        }),
{
    proof {
        reveal_strlit("0x");
    }
    let digest = unsigned_tx_hash(req);
    let v = match y_parity(digest.as_slice(), signature.as_slice(), pubkey.as_slice()) {
        Ok(v) => v,
        Err(e) => {
            return Err(e);
        },
    };
    let signed = rlp_encode_signed(req, signature.as_slice(), v);
    let mut bytes: Vec<u8> = Vec::new();
    bytes.push(2u8);
    let mut i: usize = 0;
    while i < signed.len()
        invariant
            i <= signed@.len(),
            bytes@ =~= seq![2u8] + signed@.take(i as int),
        decreases signed@.len() - i,
    {
        bytes.push(signed[i]);
        proof {
            assert(bytes@ =~= seq![2u8] + signed@.take(i + 1));
        }
        i += 1;
    }
    proof {
        assert(signed@.take(signed@.len() as int) =~= signed@);
    }
    let mut out = <String as vstd::string::StringExecFns>::from_str("0x");
    crate::hexs::append_hex_of_bytes(&mut out, bytes.as_slice());
    proof {
        assert("0x"@ =~= seq!['0', 'x']);
        assert(out@ == spec_signed_tx_text(*req, signature@, v));
        assert((v == 0 || v == 1) && recover_sec1_of(
            spec_unsigned_tx_hash(*req),
            signature@,
            v as u8,
        ) == Option::Some(sec1_uncompressed_of(pubkey@)->0) && out@ == spec_signed_tx_text(
            *req,
            signature@,
            v,
        ));
    }
    Ok(out)
}

/// The EVM address of a public key: the last 20 bytes of the Keccak-256
/// digest of the uncompressed SEC1 encoding without its 0x04 tag.
pub fn pubkey_bytes_to_address(pubkey_bytes: &[u8]) -> (r: Result<Address, SignerError>)
    ensures
        match r {
            Ok(a) => {
                &&& sec1_uncompressed_of(pubkey_bytes@) is Some
                &&& a@ =~= keccak_of(sec1_uncompressed_of(pubkey_bytes@)->0.skip(1)).subrange(
                    12,
                    32,
                )
            },
            Err(e) => e is FailedToParsePublicKey && sec1_uncompressed_of(pubkey_bytes@) is None,
        },
{
    let pk65 = match crate::ecdsa::sec1_uncompress(pubkey_bytes) {
        Some(k) => k,
        None => {
            return Err(SignerError::FailedToParsePublicKey);
        },
    };
    let mut tail: Vec<u8> = Vec::new();
    let mut i: usize = 1;
    while i < 65
        invariant
            1 <= i <= 65,
            pk65@.len() == 65,
            tail@ =~= pk65@.subrange(1, i as int),
        decreases 65 - i,
    {
        tail.push(pk65[i]);
        proof {
            assert(tail@ =~= pk65@.subrange(1, i + 1));
        }
        i += 1;
    }
    proof {
        assert(tail@ =~= pk65@.skip(1));
    }
    let digest = crate::ecdsa::keccak256(tail.as_slice());
    let a = crate::types::address_from_bytes(&digest, 12);
    Ok(a)
}

} // verus!
