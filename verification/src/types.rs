//! Identities: EVM addresses and user principals.
//!
//! An address is exactly 20 bytes. A user is an opaque stable identity
//! created by the host environment, carried here as its raw bytes; the
//! deposit decoder recovers it from the trailing 29 bytes of a log topic.

use vstd::prelude::*;
use vstd::string::StringExecFns;
use crate::u256::U256;

verus! {

/// A 20-byte EVM address: a token contract, an endpoint, or a recipient.
#[derive(Clone, Copy, Debug)]
pub struct Address {
    pub bytes: [u8; 20],
}

impl View for Address {
    type V = Seq<u8>;

    open spec fn view(&self) -> Seq<u8> {
        self.bytes@
    }
}

impl Address {
    pub fn new(bytes: [u8; 20]) -> (r: Address)
        ensures
            r@ == bytes@,
    {
        Address { bytes }
    }

    /// Byte-for-byte equality.
    pub fn eq_addr(&self, other: &Address) -> (r: bool)
        ensures
            r == (self@ =~= other@),
    {
        let mut i: usize = 0;
        while i < 20
            invariant
                i <= 20,
                forall|j: int| 0 <= j < i ==> self@[j] == other@[j],
            decreases 20 - i,
        {
            if self.bytes[i] != other.bytes[i] {
                return false;
            }
            i += 1;
        }
        true
    }
}

/// The opaque identity of an authenticated user, as raw principal bytes.
#[derive(Clone, Debug)]
pub struct UserId {
    pub bytes: Vec<u8>,
}

impl View for UserId {
    type V = Seq<u8>;

    open spec fn view(&self) -> Seq<u8> {
        self.bytes@
    }
}

impl UserId {
    pub fn new(bytes: Vec<u8>) -> (r: UserId)
        ensures
            r@ == bytes@,
    {
        UserId { bytes }
    }

    /// Byte-for-byte equality.
    pub fn eq_user(&self, other: &UserId) -> (r: bool)
        ensures
            r == (self@ =~= other@),
    {
        if self.bytes.len() != other.bytes.len() {
            return false;
        }
        let n = self.bytes.len();
        let mut i: usize = 0;
        while i < n
            invariant
                i <= n,
                n == self@.len() == other@.len(),
                forall|j: int| 0 <= j < i ==> self@[j] == other@[j],
            decreases n - i,
        {
            if self.bytes[i] != other.bytes[i] {
                return false;
            }
            i += 1;
        }
        true
    }
}

/// Text form of an address.
pub trait H160Ext {
    fn to_repr(&self) -> String;
}

impl H160Ext for Address {
    /// `0x` followed by 40 lowercase hex digits.
    fn to_repr(&self) -> (r: String)
        ensures
            r@ == seq!['0', 'x'] + crate::hexs::hex_of_bytes(self@),
    {
        proof {
            reveal_strlit("0x");
        }
        let mut out = String::from_str("0x");
        crate::hexs::append_hex_of_bytes(&mut out, self.bytes.as_slice());
        proof {
            assert("0x"@ =~= seq!['0', 'x']);
        }
        out
    }
}

/// The 20 bytes of `v` starting at `start`, as an address.
pub fn address_from_bytes(v: &Vec<u8>, start: usize) -> (r: Address)
    requires
        start + 20 <= v@.len(),
    ensures
        r@ =~= v@.subrange(start as int, start + 20),
{
    let n = v.len();
    proof {
        assert(start + 20 <= n);
    }
    let bytes: [u8; 20] = [
        v[start], v[start + 1], v[start + 2], v[start + 3], v[start + 4], v[start + 5],
        v[start + 6], v[start + 7], v[start + 8], v[start + 9], v[start + 10], v[start + 11],
        v[start + 12], v[start + 13], v[start + 14], v[start + 15], v[start + 16], v[start + 17],
        v[start + 18], v[start + 19],
    ];
    let a = Address { bytes };
    proof {
        assert(a@ =~= v@.subrange(start as int, start + 20));
    }
    a
}

/// Text form of an amount.
pub trait H256Ext {
    fn to_repr(&self) -> String;
}

/// The nibble at position `k` of the hex text of `bytes`.
fn nibble_at(bytes: &Vec<u8>, k: usize) -> (r: u8)
    requires
        k < 2 * bytes@.len(),
    ensures
        r < 16,
        crate::hexs::hex_of_bytes(bytes@)[k as int] == crate::hexs::hex_digit_char(r as nat),
{
    let b = bytes[k / 2];
    proof {
        crate::hexs::lemma_hex_of_bytes_index(bytes@, k as int / 2);
        vstd::arithmetic::div_mod::lemma_fundamental_div_mod(k as int, 2);
    }
    if k % 2 == 0 {
        b / 16
    } else {
        b % 16
    }
}

/// Dropping a leading zero digit drops it from the stripped form too.
proof fn lemma_strip_skip(s: Seq<char>, k: int)
    requires
        0 <= k < s.len(),
        forall|j: int| 0 <= j < k ==> s[j] == '0',
        k == s.len() - 1 || s[k] != '0',
    ensures
        crate::hexs::strip_hex_zeros(s) == s.skip(k),
    decreases k,
{
    if k == 0 {
        assert(s.skip(0) =~= s);
    } else {
        assert(s[0] == '0');
        assert(s.len() > 1);
        let t = s.subrange(1, s.len() as int);
        assert(forall|j: int| 0 <= j < k - 1 ==> t[j] == #[trigger] s[j + 1]);
        assert(t[k - 1] == s[k]);
        lemma_strip_skip(t, k - 1);
        assert(t.skip(k - 1) =~= s.skip(k));
    }
}

impl H256Ext for U256 {
    /// `0x` followed by the minimal lowercase hex digits of the value.
    fn to_repr(&self) -> (r: String)
        ensures
            r@ == seq!['0', 'x'] + crate::hexs::strip_hex_zeros(
                crate::hexs::hex_of_bytes(crate::hexs::be_bytes_of(self.as_nat(), 32)),
            ),
    {
        proof {
            reveal_strlit("0x");
        }
        let bytes = self.to_be_bytes();
        let ghost full = crate::hexs::hex_of_bytes(bytes@);
        proof {
            crate::hexs::lemma_be_bytes_of_len(self.as_nat(), 32);
            crate::hexs::lemma_hex_of_bytes_val(bytes@);
        }
        let mut k: usize = 0;
        while k < 63 && nibble_at(&bytes, k) == 0
            invariant
                k <= 63,
                bytes@.len() == 32,
                full == crate::hexs::hex_of_bytes(bytes@),
                full.len() == 64,
                forall|j: int| 0 <= j < k ==> full[j] == '0',
            decreases 63 - k,
        {
            proof {
                crate::hexs::lemma_hex_digit_char_val(0);
            }
            k += 1;
        }
        proof {
            if k < 63 {
                let v = crate::hexs::hex_char_val(full[k as int]);
                crate::hexs::lemma_hex_digit_char_val(v);
            }
            lemma_strip_skip(full, k as int);
        }
        let mut out = String::from_str("0x");
        let mut i: usize = k;
        while i < 64
            invariant
                k <= i <= 64,
                bytes@.len() == 32,
                full == crate::hexs::hex_of_bytes(bytes@),
                full.len() == 64,
                out@ =~= "0x"@ + full.subrange(k as int, i as int),
            decreases 64 - i,
        {
            let d = nibble_at(&bytes, i);
            out.append(crate::hexs::hex_digit_to_str(d));
            proof {
                assert(out@ =~= "0x"@ + full.subrange(k as int, i + 1));
            }
            i += 1;
        }
        proof {
            assert(full.subrange(k as int, 64) =~= full.skip(k as int));
            assert("0x"@ =~= seq!['0', 'x']);
            assert(out@ =~= seq!['0', 'x'] + crate::hexs::strip_hex_zeros(full));
        }
        out
    }
}

} // verus!
