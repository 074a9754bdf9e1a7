//! Keccak-256 and ECDSA public-key recovery.
//!
//! The digest and the curve arithmetic come from outside crates; their
//! results are given names here, and the parity search that the signer
//! needs is proved against those names.

use vstd::prelude::*;
use ethers_core::k256::elliptic_curve::sec1::ToEncodedPoint;
use tiny_keccak::Hasher;

verus! {

/// Failure of an ECDSA step.
#[derive(Debug)]
pub enum EcdsaError {
    InvalidSignature,
    InvalidPublicKey,
    InvalidRecoveryId,
    InvalidMessage,
    RecoveryFailed,
    CallFailed(crate::eth_get_logs::RejectionCode, String),
}

/// The Keccak-256 digest of a byte sequence.
pub uninterp spec fn keccak_of(bytes: Seq<u8>) -> Seq<u8>;

/// Relies on tiny_keccak's Keccak-256: the digest is a function of the
/// input bytes alone, 32 bytes long.
#[verifier::external_body]
pub fn keccak256(bytes: &[u8]) -> (r: Vec<u8>)
    ensures
        r@ == keccak_of(bytes@),
        r@.len() == 32,
{
    let mut output = [0u8;32];
    let mut hasher = tiny_keccak::Keccak::v256();
    hasher.update(bytes);
    hasher.finalize(&mut output);
    output.to_vec()
}

/// The public key, as an uncompressed SEC1 encoding, that a digest,
/// signature and recovery parity recover to; `None` when nothing
/// recovers.
pub uninterp spec fn recover_sec1_of(prehash: Seq<u8>, sig: Seq<u8>, parity: u8) -> Option<
    Seq<u8>,
>;

/// Relies on k256's `VerifyingKey::recover_from_prehash`: recovery is a
/// function of digest, signature and parity alone; an uncompressed SEC1
/// encoding is 65 bytes and starts with 0x04.
#[verifier::external_body]
fn recover_pubkey(prehash: &[u8], sig: &[u8], parity: u8) -> (r: Option<Vec<u8>>)
    ensures
        match r {
            Some(k) => recover_sec1_of(prehash@, sig@, parity) == Option::Some(k@) && k@.len()
                == 65 && k@[0] == 4,
            None => recover_sec1_of(prehash@, sig@, parity) is None,
        },
{
    let signature = match ethers_core::k256::ecdsa::Signature::try_from(sig) {
        Ok(s) => s,
        Err(_) => return None,
    };
    let rec_id = match ethers_core::k256::ecdsa::RecoveryId::try_from(parity) {
        Ok(r) => r,
        Err(_) => return None,
    };
    match ethers_core::k256::ecdsa::VerifyingKey::recover_from_prehash(prehash, &signature, rec_id) {
        Ok(key) => Some(key.to_encoded_point(false).as_bytes().to_vec()),
        Err(_) => None,
    }
}

/// The uncompressed SEC1 encoding of a public key handed over in any
/// SEC1 form; `None` when the bytes encode no curve point.
pub uninterp spec fn sec1_uncompressed_of(key: Seq<u8>) -> Option<Seq<u8>>;

/// Relies on k256's `PublicKey::from_sec1_bytes` and `to_encoded_point`:
/// parsing and re-encoding a key is a function of its bytes alone; the
/// uncompressed encoding is 65 bytes and starts with 0x04.
#[verifier::external_body]
pub fn sec1_uncompress(key: &[u8]) -> (r: Option<Vec<u8>>)
    ensures
        match r {
            Some(k) => sec1_uncompressed_of(key@) == Option::Some(k@) && k@.len() == 65 && k@[0]
                == 4,
            None => sec1_uncompressed_of(key@) is None,
        },
{
    match ethers_core::k256::PublicKey::from_sec1_bytes(key) {
        Ok(k) => Some(k.to_encoded_point(false).as_bytes().to_vec()),
        Err(_) => None,
    }
}

/// Byte-for-byte equality of two slices.
pub fn bytes_eq(a: &[u8], b: &[u8]) -> (r: bool)
    ensures
        r == (a@ =~= b@),
{
    if a.len() != b.len() {
        return false;
    }
    let n = a.len();
    let mut i: usize = 0;
    while i < n
        invariant
            i <= n,
            n == a@.len() == b@.len(),
            forall|j: int| 0 <= j < i ==> a@[j] == b@[j],
        decreases n - i,
    {
        if a[i] != b[i] {
            return false;
        }
        i += 1;
    }
    true
}

/// Finds the recovery parity for a signature over `msg` made by the key
/// whose uncompressed SEC1 encoding is `known_pub_key`: parities 0 and 1
/// are tried in turn, and the one whose recovered key matches is
/// returned.
pub fn find_recovery_id(msg: &[u8], sig: &[u8], known_pub_key: &[u8]) -> (r: Result<
    u8,
    EcdsaError,
>)
    ensures
        match r {
            Ok(p) => {
                &&& (p == 0 || p == 1)
                &&& recover_sec1_of(msg@, sig@, p) == Option::Some(known_pub_key@)
                &&& p == 1 ==> recover_sec1_of(msg@, sig@, 0) != Option::Some(known_pub_key@)
            },
            Err(e) => {
                &&& e is InvalidPublicKey
                &&& recover_sec1_of(msg@, sig@, 0) != Option::Some(known_pub_key@)
                &&& recover_sec1_of(msg@, sig@, 1) != Option::Some(known_pub_key@)
            },
        },
{
    let r0 = recover_pubkey(msg, sig, 0);
    match r0 {
        Some(k) => {
            let hit = bytes_eq(k.as_slice(), known_pub_key);
            if hit {
                return Ok(0);
            }
        },
        None => {},
    }
    let r1 = recover_pubkey(msg, sig, 1);
    match r1 {
        Some(k) => {
            let hit = bytes_eq(k.as_slice(), known_pub_key);
            if hit {
                return Ok(1);
            }
        },
        None => {},
    }
    Err(EcdsaError::InvalidPublicKey)
}

} // verus!
