//! Big-endian byte encodings and decimal parsing of identifiers.
//!
//! The wire protocol carries `id` and `seq` as 8-byte big-endian integers and
//! the query string carries `id` in decimal; both readings are defined and
//! verified here.

use vstd::arithmetic::div_mod::{lemma_div_denominator, lemma_fundamental_div_mod};
use vstd::arithmetic::mul::lemma_mul_inequality;
use vstd::prelude::*;

verus! {

/// `256^n`, the number of byte strings of length `n`.
pub open spec fn pow256(n: nat) -> nat
    decreases n,
{
    if n == 0 {
        1
    } else {
        256 * pow256((n - 1) as nat)
    }
}

/// The big-endian encoding of `n` in `len` bytes (truncated to the low
/// `len` bytes when `n` does not fit).
pub open spec fn be_bytes(n: nat, len: nat) -> Seq<u8>
    decreases len,
{
    if len == 0 {
        Seq::empty()
    } else {
        be_bytes(n / 256, (len - 1) as nat).push((n % 256) as u8)
    }
}

/// The value of a byte string read as a big-endian integer.
pub open spec fn be_val(s: Seq<u8>) -> nat
    decreases s.len(),
{
    if s.len() == 0 {
        0
    } else {
        (be_val(s.drop_last()) * 256 + s.last()) as nat
    }
}

pub proof fn lemma_pow256_small()
    ensures
        pow256(4) == 0x1_0000_0000,
        pow256(7) == 0x100_0000_0000_0000,
        pow256(8) == 0x1_0000_0000_0000_0000,
{
    assert(pow256(0) == 1);
    assert(pow256(1) == 256);
    assert(pow256(2) == 0x1_0000);
    assert(pow256(3) == 0x100_0000);
    assert(pow256(4) == 0x1_0000_0000);
    assert(pow256(5) == 0x100_0000_0000);
    assert(pow256(6) == 0x1_0000_0000_0000);
    assert(pow256(7) == 0x100_0000_0000_0000);
    assert(pow256(8) == 0x1_0000_0000_0000_0000);
}

pub proof fn lemma_pow256_increases(a: nat, b: nat)
    requires
        a <= b,
    ensures
        pow256(a) <= pow256(b),
    decreases b,
{
    if a < b {
        lemma_pow256_increases(a, (b - 1) as nat);
        assert(pow256(b) == 256 * pow256((b - 1) as nat));
        lemma_mul_inequality(1, 256, pow256((b - 1) as nat) as int);
    }
}

pub proof fn lemma_be_val_bound(s: Seq<u8>)
    ensures
        be_val(s) < pow256(s.len()),
    decreases s.len(),
{
    if s.len() > 0 {
        lemma_be_val_bound(s.drop_last());
        lemma_mul_inequality(
            be_val(s.drop_last()) as int,
            pow256((s.len() - 1) as nat) as int - 1,
            256,
        );
    }
}

/// A value below `256^len` is recovered exactly from its `len`-byte encoding.
pub proof fn lemma_be_val_be_bytes(n: nat, len: nat)
    requires
        n < pow256(len),
    ensures
        be_bytes(n, len).len() == len,
        be_val(be_bytes(n, len)) == n,
    decreases len,
{
    if len > 0 {
        assert(pow256(len) == 256 * pow256((len - 1) as nat));
        lemma_fundamental_div_mod(n as int, 256);
        assert(n / 256 < pow256((len - 1) as nat)) by {
            if n / 256 >= pow256((len - 1) as nat) {
                lemma_mul_inequality(pow256((len - 1) as nat) as int, (n / 256) as int, 256);
            }
        }
        lemma_be_val_be_bytes(n / 256, (len - 1) as nat);
        let enc = be_bytes(n, len);
        assert(enc.drop_last() =~= be_bytes(n / 256, (len - 1) as nat));
    }
}

/// Computes `256^n` for the small exponents the encodings use.
fn pow256_exec(n: usize) -> (r: u64)
    requires
        n <= 7,
    ensures
        r == pow256(n as nat),
{
    let mut r: u64 = 1;
    let mut i: usize = 0;
    while i < n
        invariant
            i <= n <= 7,
            r == pow256(i as nat),
        decreases n - i,
    {
        proof {
            lemma_pow256_increases((i + 1) as nat, 7);
            lemma_pow256_small();
        }
        r = r * 256;
        i = i + 1;
    }
    r
}

/// Writes `n` as `len` big-endian bytes.
pub fn be_encode(n: u64, len: usize) -> (r: Vec<u8>)
    requires
        1 <= len <= 8,
        n < pow256(len as nat),
    ensures
        r@ == be_bytes(n as nat, len as nat),
        r@.len() == len,
        be_val(r@) == n,
{
    let mut out: Vec<u8> = Vec::new();
    let mut pow: u64 = pow256_exec(len - 1);
    let mut i: usize = 0;
    while i < len
        invariant
            i <= len <= 8,
            n < pow256(len as nat),
            i < len ==> pow == pow256((len - 1 - i) as nat),
            out@ =~= be_bytes((n as nat) / pow256((len - i) as nat), i as nat),
        decreases len - i,
    {
        proof {
            lemma_pow256_increases((len - 1 - i) as nat, 7);
            lemma_pow256_increases(0, (len - 1 - i) as nat);
            lemma_pow256_small();
        }
        let b: u8 = ((n / pow) % 256) as u8;
        proof {
            let rest = (len - 1 - i) as nat;
            assert(pow256((len - i) as nat) == 256 * pow256(rest));
            lemma_div_denominator(n as int, pow256(rest) as int, 256);
            assert((n as nat) / pow256((len - i) as nat) == ((n as nat) / pow256(rest)) / 256);
            assert(be_bytes((n as nat) / pow256(rest), (i + 1) as nat).drop_last() =~= be_bytes(
                ((n as nat) / pow256(rest)) / 256,
                i as nat,
            ));
            assert(out@.push(b) =~= be_bytes((n as nat) / pow256(rest), (i + 1) as nat));
        }
        out.push(b);
        i = i + 1;
        if i < len {
            pow = pow / 256;
            proof {
                assert(pow256((len - i) as nat) == 256 * pow256((len - 1 - i) as nat));
                lemma_div_denominator(
                    pow256((len - i) as nat) as int * 256,
                    256,
                    pow256((len - 1 - i) as nat) as int,
                );
                assert(pow256((len - i) as nat) / 256 == pow256((len - 1 - i) as nat)) by {
                    lemma_fundamental_div_mod(pow256((len - i) as nat) as int, 256);
                }
            }
        }
    }
    proof {
        assert(pow256(0nat) == 1);
        assert((n as nat) / 1 == n as nat);
        lemma_be_val_be_bytes(n as nat, len as nat);
    }
    out
}

/// Reads exactly eight bytes as a big-endian unsigned integer.
pub fn be_decode8(s: &[u8]) -> (r: u64)
    requires
        s@.len() == 8,
    ensures
        r == be_val(s@),
{
    let mut acc: u64 = 0;
    let mut i: usize = 0;
    while i < 8
        invariant
            i <= 8,
            s@.len() == 8,
            acc == be_val(s@.take(i as int)),
            acc < pow256(i as nat),
        decreases 8 - i,
    {
        proof {
            lemma_pow256_increases(i as nat, 7);
            lemma_pow256_small();
            lemma_mul_inequality(acc as int, pow256(i as nat) as int - 1, 256);
        }
        let b = s[i];
        let new_acc = acc * 256 + (b as u64);
        proof {
            assert(s@.take((i + 1) as int).drop_last() =~= s@.take(i as int));
            assert(s@.take((i + 1) as int).last() == s@[i as int]);
        }
        acc = new_acc;
        i = i + 1;
    }
    proof {
        assert(s@.take(8) =~= s@);
    }
    acc
}

/// Whether `b` is an ASCII decimal digit.
pub open spec fn is_digit(b: u8) -> bool {
    0x30 <= b <= 0x39
}

pub open spec fn all_digits(s: Seq<u8>) -> bool {
    forall|i: int| 0 <= i < s.len() ==> is_digit(#[trigger] s[i])
}

/// The value of a string of decimal digits.
pub open spec fn dec_val(s: Seq<u8>) -> nat
    decreases s.len(),
{
    if s.len() == 0 {
        0
    } else {
        (dec_val(s.drop_last()) * 10 + (s.last() - 0x30)) as nat
    }
}

/// The digit part of a decimal integer: everything after an optional
/// leading `'+'` or `'-'`.
pub open spec fn dec_digits_of(s: Seq<u8>) -> Seq<u8> {
    if s.len() > 0 && (s[0] == 0x2b || s[0] == 0x2d) {
        s.skip(1)
    } else {
        s
    }
}

pub open spec fn dec_negative(s: Seq<u8>) -> bool {
    s.len() > 0 && s[0] == 0x2d
}

/// Whether `s` is a decimal integer that fits in an `i64`: an optional sign,
/// then at least one digit and nothing else, with the value in range.
pub open spec fn parses_as_i64(s: Seq<u8>) -> bool {
    let digits = dec_digits_of(s);
    &&& digits.len() > 0
    &&& all_digits(digits)
    &&& if dec_negative(s) {
        dec_val(digits) <= 0x8000_0000_0000_0000
    } else {
        dec_val(digits) <= 0x7fff_ffff_ffff_ffff
    }
}

/// The value that a decimal integer denotes.
pub open spec fn dec_i64_val(s: Seq<u8>) -> int {
    if dec_negative(s) {
        -(dec_val(dec_digits_of(s)) as int)
    } else {
        dec_val(dec_digits_of(s)) as int
    }
}

/// On an all-digit string, every prefix denotes at most the whole.
proof fn lemma_dec_val_prefix(s: Seq<u8>, i: int)
    requires
        all_digits(s),
        0 <= i <= s.len(),
    ensures
        dec_val(s.take(i)) <= dec_val(s),
    decreases s.len(),
{
    if i < s.len() {
        assert(s.take(i) =~= s.drop_last().take(i));
        assert(all_digits(s.drop_last())) by {
            assert(forall|j: int|
                0 <= j < s.len() - 1 ==> #[trigger] s.drop_last()[j] == s[j]);
        }
        lemma_dec_val_prefix(s.drop_last(), i);
    } else {
        assert(s.take(i) =~= s);
    }
}

/// Reads a decimal integer exactly as `i64` parsing does: one optional sign,
/// then digits only, rejecting the empty string, a bare sign, any other byte,
/// and values outside the `i64` range.
pub fn parse_i64(s: &[u8]) -> (r: Option<i64>)
    ensures
        r is Some <==> parses_as_i64(s@),
        r matches Some(v) ==> v == dec_i64_val(s@),
{
    let n = s.len();
    if n == 0 {
        return None;
    }
    let first = s[0];
    let neg = first == 0x2d;
    let start: usize = if first == 0x2b || first == 0x2d {
        1
    } else {
        0
    };
    if start >= n {
        return None;
    }
    let ghost digits = dec_digits_of(s@);
    proof {
        assert(digits =~= s@.skip(start as int));
    }
    let limit: u64 = if neg {
        0x8000_0000_0000_0000
    } else {
        0x7fff_ffff_ffff_ffff
    };
    let mut acc: u64 = 0;
    let mut i: usize = start;
    while i < n
        invariant
            start <= i <= n == s@.len(),
            start < n,
            digits == dec_digits_of(s@),
            digits =~= s@.skip(start as int),
            neg == dec_negative(s@),
            limit == if neg { 0x8000_0000_0000_0000u64 } else { 0x7fff_ffff_ffff_ffffu64 },
            acc == dec_val(digits.take(i - start)),
            acc <= limit,
            all_digits(digits.take(i - start)),
        decreases n - i,
    {
        let b = s[i];
        if b < 0x30 || b > 0x39 {
            proof {
                assert(digits[i - start] == s@[i as int]);
                assert(!is_digit(digits[i - start]));
            }
            return None;
        }
        let d: u64 = (b - 0x30) as u64;
        let wide: u128 = (acc as u128) * 10 + (d as u128);
        proof {
            assert(digits.take(i + 1 - start).drop_last() =~= digits.take(i - start));
            assert(digits.take(i + 1 - start).last() == s@[i as int]);
            assert(dec_val(digits.take(i + 1 - start)) == acc * 10 + d);
        }
        if wide > limit as u128 {
            proof {
                if all_digits(digits) {
                    lemma_dec_val_prefix(digits, i + 1 - start);
                    assert(dec_val(digits) >= acc * 10 + d);
                }
            }
            return None;
        }
        acc = wide as u64;
        i = i + 1;
    }
    proof {
        assert(digits.take(n - start) =~= digits);
    }
    if neg {
        if acc == 0x8000_0000_0000_0000 {
            Some(i64::MIN)
        } else {
            Some(-(acc as i64))
        }
    } else {
        Some(acc as i64)
    }
}

} // verus!
