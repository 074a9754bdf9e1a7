//! Hexadecimal text and big-endian bytes.
//!
//! Topics and data of EVM log entries, transaction payloads and addresses
//! all travel as `0x`-prefixed hexadecimal strings. This module gives the
//! value of such text a mathematical reading and proves the conversions
//! in both directions.

use vstd::prelude::*;
use vstd::string::StrSliceExecFns;
use vstd::string::StringExecFns;

verus! {

/// Is `c` one of `0-9`, `a-f`, `A-F`?
pub open spec fn is_hex_digit(c: char) -> bool {
    (48 <= c as u32 && c as u32 <= 57) || (97 <= c as u32 && c as u32 <= 102) || (65 <= c as u32
        && c as u32 <= 70)
}

/// The numeric value of a hex digit (0 when `c` is no digit).
pub open spec fn hex_char_val(c: char) -> nat {
    if 48 <= c as u32 && c as u32 <= 57 {
        (c as u32 - 48) as nat
    } else if 97 <= c as u32 && c as u32 <= 102 {
        (c as u32 - 87) as nat
    } else if 65 <= c as u32 && c as u32 <= 70 {
        (c as u32 - 55) as nat
    } else {
        0
    }
}

/// The lowercase digit for a value below 16.
pub open spec fn hex_digit_char(v: nat) -> char {
    if v == 0 {
        '0'
    } else if v == 1 {
        '1'
    } else if v == 2 {
        '2'
    } else if v == 3 {
        '3'
    } else if v == 4 {
        '4'
    } else if v == 5 {
        '5'
    } else if v == 6 {
        '6'
    } else if v == 7 {
        '7'
    } else if v == 8 {
        '8'
    } else if v == 9 {
        '9'
    } else if v == 10 {
        'a'
    } else if v == 11 {
        'b'
    } else if v == 12 {
        'c'
    } else if v == 13 {
        'd'
    } else if v == 14 {
        'e'
    } else {
        'f'
    }
}

pub open spec fn all_hex_digits(s: Seq<char>) -> bool {
    forall|i: int| 0 <= i < s.len() ==> is_hex_digit(#[trigger] s[i])
}

/// The value of a big-endian sequence of hex digits.
pub open spec fn hex_seq_val(s: Seq<char>) -> nat
    decreases s.len(),
{
    if s.len() == 0 {
        0
    } else {
        hex_seq_val(s.drop_last()) * 16 + hex_char_val(s.last())
    }
}

/// The lowercase hex text of a byte sequence: two digits for each byte.
pub open spec fn hex_of_bytes(bs: Seq<u8>) -> Seq<char>
    decreases bs.len(),
{
    if bs.len() == 0 {
        Seq::empty()
    } else {
        hex_of_bytes(bs.drop_last()).push(hex_digit_char((bs.last() / 16) as nat)).push(
            hex_digit_char((bs.last() % 16) as nat),
        )
    }
}

/// The value of a big-endian byte sequence.
pub open spec fn be_bytes_val(bs: Seq<u8>) -> nat
    decreases bs.len(),
{
    if bs.len() == 0 {
        0
    } else {
        be_bytes_val(bs.drop_last()) * 256 + bs.last() as nat
    }
}

/// The `len` big-endian bytes of `n`, most significant first.
pub open spec fn be_bytes_of(n: nat, len: nat) -> Seq<u8>
    decreases len,
{
    if len == 0 {
        Seq::empty()
    } else {
        be_bytes_of(n / 256, (len - 1) as nat).push((n % 256) as u8)
    }
}

/// Leading zero digits stripped, but at least one digit kept.
pub open spec fn strip_hex_zeros(s: Seq<char>) -> Seq<char>
    decreases s.len(),
{
    if s.len() > 1 && s[0] == '0' {
        strip_hex_zeros(s.subrange(1, s.len() as int))
    } else {
        s
    }
}

/// A digit's round trip through its character.
pub proof fn lemma_hex_digit_char_val(v: nat)
    requires
        v < 16,
    ensures
        is_hex_digit(hex_digit_char(v)),
        hex_char_val(hex_digit_char(v)) == v,
{
}

/// Writing bytes as hex text and reading the text's value matches the
/// bytes' own big-endian value; the text is all digits, two per byte.
pub proof fn lemma_hex_of_bytes_val(bs: Seq<u8>)
    ensures
        hex_of_bytes(bs).len() == 2 * bs.len(),
        all_hex_digits(hex_of_bytes(bs)),
        hex_seq_val(hex_of_bytes(bs)) == be_bytes_val(bs),
    decreases bs.len(),
{
    if bs.len() > 0 {
        lemma_hex_of_bytes_val(bs.drop_last());
        lemma_hex_digit_char_val((bs.last() / 16) as nat);
        lemma_hex_digit_char_val((bs.last() % 16) as nat);
        let s = hex_of_bytes(bs);
        let h = hex_of_bytes(bs.drop_last());
        assert(s.drop_last() =~= h.push(hex_digit_char((bs.last() / 16) as nat)));
        assert(s.drop_last().drop_last() =~= h);
        assert(hex_seq_val(s) == hex_seq_val(s.drop_last()) * 16 + hex_char_val(s.last()));
        assert(hex_seq_val(s.drop_last()) == hex_seq_val(h) * 16 + hex_char_val(
            hex_digit_char((bs.last() / 16) as nat),
        ));
        assert(hex_seq_val(s) == (be_bytes_val(bs.drop_last()) * 16 + bs.last() / 16) * 16
            + bs.last() % 16);
        assert(bs.last() == (bs.last() / 16) * 16 + bs.last() % 16) by (nonlinear_arith) {
        }
        assert((be_bytes_val(bs.drop_last()) * 16 + bs.last() / 16) * 16 + bs.last() % 16
            == be_bytes_val(bs.drop_last()) * 256 + bs.last()) by (nonlinear_arith)
            requires
                bs.last() == (bs.last() / 16) * 16 + bs.last() % 16,
        {
        }
    }
}

/// The byte text of `n` has exactly `len` bytes.
pub proof fn lemma_be_bytes_of_len(n: nat, len: nat)
    ensures
        be_bytes_of(n, len).len() == len,
    decreases len,
{
    if len > 0 {
        lemma_be_bytes_of_len(n / 256, (len - 1) as nat);
    }
}

/// Reading back the big-endian bytes of `n` yields `n`.
pub proof fn lemma_be_bytes_of_val(n: nat, len: nat)
    requires
        n < vstd::arithmetic::power::pow(256, len),
    ensures
        be_bytes_val(be_bytes_of(n, len)) == n,
        be_bytes_of(n, len).len() == len,
    decreases len,
{
    reveal(vstd::arithmetic::power::pow);
    vstd::arithmetic::power::lemma_pow_positive(256, len);
    if len == 0 {
        assert(be_bytes_of(n, len) =~= Seq::empty());
    } else {
        let rest = (len - 1) as nat;
        assert(vstd::arithmetic::power::pow(256, len) == 256 * vstd::arithmetic::power::pow(
            256,
            rest,
        ));
        assert(n / 256 < vstd::arithmetic::power::pow(256, rest)) by (nonlinear_arith)
            requires
                n < 256 * vstd::arithmetic::power::pow(256, rest),
        {
        }
        lemma_be_bytes_of_val(n / 256, rest);
        let s = be_bytes_of(n, len);
        assert(s.drop_last() =~= be_bytes_of(n / 256, rest));
        assert(be_bytes_val(s) == (n / 256) * 256 + n % 256);
        vstd::arithmetic::div_mod::lemma_fundamental_div_mod(n as int, 256);
    }
}

/// Splitting a value at a byte boundary splits its big-endian bytes.
pub proof fn lemma_be_bytes_split(a: nat, b: nat, k: nat, lb: nat)
    requires
        b < vstd::arithmetic::power::pow(256, lb),
    ensures
        be_bytes_of((a * vstd::arithmetic::power::pow(256, lb) + b) as nat, k + lb)
            =~= be_bytes_of(a, k) + be_bytes_of(b, lb),
    decreases lb,
{
    reveal(vstd::arithmetic::power::pow);
    vstd::arithmetic::power::lemma_pow_positive(256, lb);
    if lb == 0 {
        assert(b == 0);
        assert(be_bytes_of((a * 1 + 0) as nat, k + 0) =~= be_bytes_of(a, k) + be_bytes_of(0, 0));
    } else {
        let rest = (lb - 1) as nat;
        let p = vstd::arithmetic::power::pow(256, rest) as nat;
        assert(vstd::arithmetic::power::pow(256, lb) == 256 * p);
        let m: nat = a * (256 * p) + b;
        let q: nat = a * p;
        assert(m == b + q * 256) by (nonlinear_arith)
            requires
                m == a * (256 * p) + b && q == a * p,
        {
        }
        vstd::arithmetic::div_mod::lemma_hoist_over_denominator(b as int, q as int, 256nat);
        vstd::arithmetic::div_mod::lemma_mod_multiples_vanish(q as int, b as int, 256);
        assert(m % 256 == b % 256);
        assert(m / 256 == q + b / 256);
        assert(b / 256 < p) by (nonlinear_arith)
            requires
                b < 256 * p,
        {
        }
        lemma_be_bytes_split(a, b / 256, k, rest);
        let s = be_bytes_of(m, k + lb);
        assert(s == be_bytes_of((m / 256) as nat, (k + lb - 1) as nat).push((m % 256) as u8));
        assert(be_bytes_of(b, lb) == be_bytes_of(b / 256, rest).push((b % 256) as u8));
        assert(s =~= be_bytes_of(a, k) + be_bytes_of(b, lb));
    }
}

/// The two digits a byte contributes to its hex text.
pub proof fn lemma_hex_of_bytes_index(bs: Seq<u8>, i: int)
    requires
        0 <= i < bs.len(),
    ensures
        hex_of_bytes(bs).len() == 2 * bs.len(),
        hex_of_bytes(bs)[2 * i] == hex_digit_char((bs[i] / 16) as nat),
        hex_of_bytes(bs)[2 * i + 1] == hex_digit_char((bs[i] % 16) as nat),
    decreases bs.len(),
{
    lemma_hex_of_bytes_val(bs);
    if i == bs.len() - 1 {
        lemma_hex_of_bytes_val(bs.drop_last());
    } else {
        assert(bs.drop_last()[i] == bs[i]);
        lemma_hex_of_bytes_index(bs.drop_last(), i);
        lemma_hex_of_bytes_val(bs.drop_last());
    }
}

/// A digit sequence's value is at least the value of any of its prefixes.
pub proof fn lemma_hex_prefix_le(s: Seq<char>, j: int)
    requires
        0 <= j <= s.len(),
    ensures
        hex_seq_val(s.take(j)) <= hex_seq_val(s),
    decreases s.len() - j,
{
    if j == s.len() {
        assert(s.take(j) =~= s);
    } else {
        lemma_hex_prefix_le(s, j + 1);
        assert(s.take(j + 1).drop_last() =~= s.take(j));
        assert(hex_seq_val(s.take(j + 1)) == hex_seq_val(s.take(j)) * 16 + hex_char_val(
            s.take(j + 1).last(),
        ));
    }
}

/// The digit for a value below 16, as one-character text.
pub fn hex_digit_to_str(v: u8) -> (c: &'static str)
    requires
        v < 16,
    ensures
        c@ =~= seq![hex_digit_char(v as nat)],
{
    proof {
        reveal_strlit("0");
        reveal_strlit("1");
        reveal_strlit("2");
        reveal_strlit("3");
        reveal_strlit("4");
        reveal_strlit("5");
        reveal_strlit("6");
        reveal_strlit("7");
        reveal_strlit("8");
        reveal_strlit("9");
        reveal_strlit("a");
        reveal_strlit("b");
        reveal_strlit("c");
        reveal_strlit("d");
        reveal_strlit("e");
        reveal_strlit("f");
    }
    match v {
        0 => "0",
        1 => "1",
        2 => "2",
        3 => "3",
        4 => "4",
        5 => "5",
        6 => "6",
        7 => "7",
        8 => "8",
        9 => "9",
        10 => "a",
        11 => "b",
        12 => "c",
        13 => "d",
        14 => "e",
        _ => "f",
    }
}

/// The value of one character, when it is a hex digit.
pub fn hex_char_to_val(c: char) -> (r: Option<u8>)
    ensures
        r is Some <==> is_hex_digit(c),
        r is Some ==> r->Some_0 == hex_char_val(c) && r->Some_0 < 16,
{
    let u = c as u32;
    if 48 <= u && u <= 57 {
        Some((u - 48) as u8)
    } else if 97 <= u && u <= 102 {
        Some((u - 87) as u8)
    } else if 65 <= u && u <= 70 {
        Some((u - 55) as u8)
    } else {
        None
    }
}

/// Appends the lowercase hex text of `bs` to `out`, two digits per byte.
pub fn append_hex_of_bytes(out: &mut String, bs: &[u8])
    ensures
        final(out)@ == old(out)@ + hex_of_bytes(bs@),
{
    let ghost orig = out@;
    let mut i: usize = 0;
    while i < bs.len()
        invariant
            i <= bs.len(),
            out@ == orig + hex_of_bytes(bs@.take(i as int)),
        decreases bs.len() - i,
    {
        let b = bs[i];
        let hi = hex_digit_to_str(b / 16);
        let lo = hex_digit_to_str(b % 16);
        out.append(hi);
        out.append(lo);
        proof {
            let t1 = bs@.take(i as int);
            let t2 = bs@.take(i + 1);
            assert(t2.drop_last() =~= t1);
            assert(t2.last() == bs@[i as int]);
            assert(out@ =~= orig + hex_of_bytes(t2));
        }
        i += 1;
    }
    proof {
        assert(bs@.take(bs@.len() as int) =~= bs@);
    }
}

/// Reads `2 * n` hex digits of `s` starting at `start` as `n` bytes.
/// `None` when a character there is no hex digit.
pub fn parse_hex_bytes(s: &str, start: usize, n: usize) -> (r: Option<Vec<u8>>)
    requires
        start + 2 * n <= s@.len(),
        start + 2 * n <= usize::MAX,
    ensures
        match r {
            Some(bs) => {
                &&& bs@.len() == n
                &&& all_hex_digits(s@.subrange(start as int, start + 2 * n))
                &&& hex_of_bytes(bs@) =~= Seq::new(
                    2 * n as nat,
                    |i: int| hex_digit_char(hex_char_val(s@[start + i])),
                )
                &&& hex_seq_val(s@.subrange(start as int, start + 2 * n)) == be_bytes_val(bs@)
                &&& bs@ =~= Seq::new(
                    n as nat,
                    |i: int| (hex_char_val(s@[start + 2 * i]) * 16 + hex_char_val(
                        s@[start + 2 * i + 1],
                    )) as u8,
                )
            },
            None => !all_hex_digits(s@.subrange(start as int, start + 2 * n)),
        },
{
    let mut out: Vec<u8> = Vec::new();
    let mut i: usize = 0;
    while i < n
        invariant
            i <= n,
            start + 2 * n <= s@.len(),
            start + 2 * n <= usize::MAX,
            out@.len() == i,
            all_hex_digits(s@.subrange(start as int, start + 2 * i)),
            hex_of_bytes(out@) =~= Seq::new(
                2 * i as nat,
                |j: int| hex_digit_char(hex_char_val(s@[start + j])),
            ),
            hex_seq_val(s@.subrange(start as int, start + 2 * i)) == be_bytes_val(out@),
            out@ =~= Seq::new(
                i as nat,
                |j: int| (hex_char_val(s@[start + 2 * j]) * 16 + hex_char_val(
                    s@[start + 2 * j + 1],
                )) as u8,
            ),
        decreases n - i,
    {
        let c1 = s.get_char(start + 2 * i);
        let c2 = s.get_char(start + 2 * i + 1);
        let v1 = match hex_char_to_val(c1) {
            Some(v) => v,
            None => {
                proof {
                    assert(s@.subrange(start as int, start + 2 * n)[2 * i as int] == c1);
                }
                return None;
            },
        };
        let v2 = match hex_char_to_val(c2) {
            Some(v) => v,
            None => {
                proof {
                    assert(s@.subrange(start as int, start + 2 * n)[2 * i + 1] == c2);
                }
                return None;
            },
        };
        let b: u8 = v1 * 16 + v2;
        let ghost prev = out@;
        out.push(b);
        proof {
            let gi = i as int;
            let t1 = s@.subrange(start as int, start + 2 * gi);
            let t2 = s@.subrange(start as int, start + 2 * (gi + 1));
            assert(t2.drop_last().drop_last() =~= t1);
            assert(t2.last() == c2);
            assert(t2.drop_last().last() == c1);
            lemma_hex_digit_char_val(v1 as nat);
            lemma_hex_digit_char_val(v2 as nat);
            assert(b / 16 == v1 && b % 16 == v2) by (nonlinear_arith)
                requires
                    b == v1 * 16 + v2,
                    v1 < 16,
                    v2 < 16,
            {
            }
            assert(out@.drop_last() =~= prev);
            assert(out@.last() == b);
            assert(hex_of_bytes(out@) == hex_of_bytes(prev).push(hex_digit_char(
                (b / 16) as nat,
            )).push(hex_digit_char((b % 16) as nat)));
            assert(hex_of_bytes(out@) =~= Seq::new(
                2 * (gi + 1) as nat,
                |j: int| hex_digit_char(hex_char_val(s@[start + j])),
            ));
            assert(hex_seq_val(t2) == hex_seq_val(t2.drop_last()) * 16 + hex_char_val(c2));
            assert(hex_seq_val(t2.drop_last()) == hex_seq_val(t1) * 16 + hex_char_val(c1));
            assert(hex_seq_val(t1) == be_bytes_val(prev));
            assert(be_bytes_val(out@) == be_bytes_val(prev) * 256 + b);
            assert((be_bytes_val(prev) * 16 + v1) * 16 + v2 == be_bytes_val(prev) * 256 + b)
                by (nonlinear_arith)
                requires
                    b == v1 * 16 + v2,
            {
            }
            assert(hex_seq_val(t2) == be_bytes_val(out@));
        }
        i += 1;
    }
    proof {
        assert(s@.subrange(start as int, start + 2 * i) =~= s@.subrange(
            start as int,
            start + 2 * n,
        ));
    }
    Some(out)
}

} // verus!
