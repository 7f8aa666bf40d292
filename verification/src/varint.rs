//! Base-128 variable-length integers: seven bits to a byte, the least
//! significant first, the high bit set on every byte but the last.

use vstd::arithmetic::power2::*;
use vstd::bits::*;
use vstd::prelude::*;

verus! {

/// The most bytes that a varint is read from.
pub const MAX_VARINT_LEN: usize = 10;

/// The bytes of the varint of `value`.
pub open spec fn varint_bytes(value: nat) -> Seq<u8>
    decreases value,
{
    if value < 128 {
        seq![value as u8]
    } else {
        seq![(value % 128 + 128) as u8] + varint_bytes(value / 128)
    }
}

/// How many bytes at the head of `s` have their high bit set.
pub open spec fn continued(s: Seq<u8>) -> nat
    decreases s.len(),
{
    if s.len() > 0 && s[0] >= 128 {
        1 + continued(s.drop_first())
    } else {
        0
    }
}

/// The number whose base-128 digits, the least significant first, are the low
/// seven bits of the bytes of `s`.
pub open spec fn base128(s: Seq<u8>) -> nat
    decreases s.len(),
{
    if s.len() == 0 {
        0
    } else {
        s[0] as nat % 128 + 128 * base128(s.drop_first())
    }
}

/// The varint at the head of `s`, in 64 bits, with the number of its bytes.
/// There is none where `s` ends before a byte without the high bit, or where
/// that byte is not among the first ten.
pub open spec fn leading_varint(s: Seq<u8>) -> Option<(u64, nat)> {
    let n = continued(s) + 1;
    if n <= s.len() && n <= MAX_VARINT_LEN {
        Some(((base128(s.take(n as int)) % 0x1_0000_0000_0000_0000) as u64, n))
    } else {
        None
    }
}

/// Encodes `value` as a varint.
pub fn encode_varint(value: u64) -> (out: Vec<u8>)
    ensures
        out@ == varint_bytes(value as nat),
{
    let mut left: u64 = value;
    let mut out: Vec<u8> = Vec::new();
    loop
        invariant_except_break
            varint_bytes(value as nat) =~= out@ + varint_bytes(left as nat),
        ensures
            out@ == varint_bytes(value as nat),
        decreases left,
    {
        assert(left & 0x7F == left % 128) by (bit_vector);
        assert(left >> 7 == left / 128) by (bit_vector);
        let bits: u8 = (left & 0x7F) as u8;
        assert(bits < 128 ==> bits | 0x80 == bits + 128) by (bit_vector);
        left = left >> 7;
        if left != 0 {
            out.push(bits | 0x80);
        } else {
            out.push(bits);
            break;
        }
    }
    out
}

/// Reads the varint that stands in `blob` at `start`, and gives it with the
/// index behind it.
pub fn read_varint(blob: &[u8], start: usize) -> (r: Option<(u64, usize)>)
    requires
        start <= blob.len(),
    ensures
        r == (match leading_varint(blob@.skip(start as int)) {
            Some((value, n)) => Some((value, (start + n) as usize)),
            None => None,
        }),
{
    let ghost s = blob@.skip(start as int);
    let mut value: u64 = 0;
    let mut shift: u64 = 0;
    let mut j: usize = start;
    proof {
        assert(s.take(0) =~= Seq::<u8>::empty());
        lemma2_to64();
    }
    while j < blob.len()
        invariant
            start <= j <= blob.len(),
            s == blob@.skip(start as int),
            j - start <= 9,
            shift == 7 * (j - start),
            value == base128(s.take(j - start)),
            forall|i: int| 0 <= i < j - start ==> s[i] >= 128,
        decreases blob.len() - j,
    {
        let b: u8 = blob[j];
        let ghost k = j - start;
        assert(b & 0x7F == b % 128) by (bit_vector);
        assert(b & 0x80 == 0 <==> b < 128) by (bit_vector);
        proof {
            assert(s[k] == b);
            assert(s.take(k + 1) =~= s.take(k).push(b));
            lemma_base128_push(s.take(k), b);
            lemma_base128_bound(s.take(k));
            lemma_add_digit(value, (b % 128) as u64, shift);
            lemma_continued(s, k);
        }
        value = value | (((b & 0x7F) as u64) << shift);
        shift = shift + 7;
        j = j + 1;
        if b & 0x80 == 0 {
            return Some((value, j));
        }
        if shift > 64 {
            proof {
                lemma_continued(s, k + 1);
            }
            return None;
        }
        proof {
            lemma_base128_bound(s.take(k + 1));
            lemma_pow2_strictly_increases((7 * (k + 1)) as nat, 64);
            lemma2_to64_rest();
        }
    }
    proof {
        lemma_continued(s, s.len() as int);
    }
    None
}

/// A varint that is read gives back the value that was encoded, whatever
/// follows it, and takes exactly the bytes that were written: at least one and
/// at most ten.
pub proof fn varint_round_trip(value: u64, rest: Seq<u8>)
    ensures
        leading_varint(varint_bytes(value as nat) + rest) == Some(
            (value, varint_bytes(value as nat).len()),
        ),
        1 <= varint_bytes(value as nat).len() <= MAX_VARINT_LEN,
{
    let e = varint_bytes(value as nat);
    let s = e + rest;
    let last = e.len() - 1;
    lemma2_to64_rest();
    lemma_pow2_strictly_increases(64, 70);
    lemma_varint_bytes(value as nat, 10);
    assert(forall|i: int| 0 <= i < last ==> s[i] == e[i]);
    lemma_continued(s, last);
    assert(s.skip(last)[0] == e[last]);
    assert(s.take(e.len() as int) =~= e);
}

/// The shape of an encoded varint: it reads as its value, only its last byte
/// has the high bit clear, and it takes no more bytes than its digits.
proof fn lemma_varint_bytes(value: nat, digits: nat)
    requires
        digits >= 1,
        value < pow2(7 * digits),
    ensures
        ({
            let e = varint_bytes(value);
            &&& 1 <= e.len() <= digits
            &&& base128(e) == value
            &&& forall|i: int| 0 <= i < e.len() - 1 ==> e[i] >= 128
            &&& e.last() < 128
        }),
    decreases digits,
{
    let e = varint_bytes(value);
    lemma2_to64();
    if value < 128 {
        assert(base128(e.drop_first()) == 0);
    } else {
        assert(digits > 1) by {
            if digits == 1 {
                assert(7 * digits == 7);
            }
        }
        let less = (digits - 1) as nat;
        lemma_pow2_adds(7, 7 * less);
        lemma_varint_bytes(value / 128, less);
        let tail = varint_bytes(value / 128);
        assert(e.drop_first() =~= tail);
        assert(e.last() == tail.last());
        assert forall|i: int| 0 <= i < e.len() - 1 implies e[i] >= 128 by {
            if i > 0 {
                assert(e[i] == tail[i - 1]);
            }
        }
    }
}

/// A leading run of bytes with the high bit counts in full.
pub(crate) proof fn lemma_continued(s: Seq<u8>, k: int)
    requires
        0 <= k <= s.len(),
        forall|i: int| 0 <= i < k ==> s[i] >= 128,
    ensures
        continued(s) == k + continued(s.skip(k)),
    decreases k,
{
    if k == 0 {
        assert(s.skip(0) =~= s);
    } else {
        lemma_continued(s.drop_first(), k - 1);
        assert(s.drop_first().skip(k - 1) =~= s.skip(k));
    }
}

/// A further byte is the next digit.
proof fn lemma_base128_push(s: Seq<u8>, b: u8)
    ensures
        base128(s.push(b)) == base128(s) + (b as nat % 128) * pow2(7 * s.len()),
    decreases s.len(),
{
    lemma2_to64();
    if s.len() == 0 {
        assert(base128(s.push(b).drop_first()) == 0);
        assert(pow2(7 * s.len()) == 1);
    } else {
        let t = s.drop_first();
        assert(s.push(b).drop_first() =~= t.push(b));
        lemma_base128_push(t, b);
        lemma_pow2_adds(7, 7 * t.len());
        let d = b as nat % 128;
        let p = pow2(7 * t.len());
        assert(pow2(7 * s.len()) == 128 * p);
        assert(128 * (base128(t) + d * p) == 128 * base128(t) + d * (128 * p)) by (nonlinear_arith);
    }
}

/// `n` digits make less than 128 to the power of `n`.
proof fn lemma_base128_bound(s: Seq<u8>)
    ensures
        base128(s) < pow2(7 * s.len()),
    decreases s.len(),
{
    lemma2_to64();
    if s.len() > 0 {
        lemma_base128_bound(s.drop_first());
        lemma_pow2_adds(7, 7 * s.drop_first().len());
    }
}

/// Setting a digit above the others adds it, in 64 bits.
proof fn lemma_add_digit(value: u64, digit: u64, shift: u64)
    requires
        digit < 128,
        shift <= 56 || shift == 63,
        value < pow2(shift as nat),
    ensures
        value | (digit << shift) == (value + digit * pow2(shift as nat)) % 0x1_0000_0000_0000_0000,
{
    lemma2_to64();
    lemma2_to64_rest();
    lemma_u64_shl_is_mul(1, shift);
    assert(value | (digit << shift) == value + (digit << shift)) by (bit_vector)
        requires
            shift <= 63,
            value < (1u64 << shift),
    ;
    if shift == 63 {
        assert(digit << 63u64 == (digit % 2) * 0x8000_0000_0000_0000) by (bit_vector);
        assert(pow2(63) == 0x8000_0000_0000_0000);
        assert(digit * 0x8000_0000_0000_0000 == (digit / 2) * 0x1_0000_0000_0000_0000 + (digit % 2)
            * 0x8000_0000_0000_0000);
    } else {
        lemma_pow2_adds(7, shift as nat);
        let p = pow2(shift as nat) as int;
        assert(digit * p <= 127 * p) by (nonlinear_arith)
            requires
                digit < 128,
                p >= 0,
        ;
        if shift < 56 {
            lemma_pow2_strictly_increases(shift as nat, 56);
        }
        lemma_u64_shl_is_mul(digit, shift);
    }
}

/// A varint holds seven bits to a byte, the least significant first: a value
/// below 128 is its own byte, and of a larger one the first byte holds the
/// lowest seven bits and the high bit, and the bytes behind it are the varint
/// of what is left.
pub proof fn varint_layout(value: u64, out: Vec<u8>, rest: Vec<u8>)
    requires
        call_ensures(encode_varint, (value,), out),
        call_ensures(encode_varint, (value / 128,), rest),
    ensures
        value < 128 ==> out@ == seq![value as u8],
        value >= 128 ==> out@ == seq![(128 + value % 128) as u8] + rest@,
        128 <= value < 16384 ==> out@ == seq![
            (128 + value % 128) as u8,
            (value / 128) as u8,
        ],
{
    if 128 <= value < 16384 {
        assert(varint_bytes((value / 128) as nat) =~= seq![(value / 128) as u8]);
    }
}

/// A varint is as short as can be: only its last byte has the high bit clear,
/// and that byte is zero for zero alone.
pub proof fn varint_is_shortest(value: u64)
    ensures
        ({
            let e = varint_bytes(value as nat);
            &&& 1 <= e.len() <= 10
            &&& forall|i: int| 0 <= i < e.len() - 1 ==> #[trigger] e[i] >= 128
            &&& e.last() < 128
            &&& e.last() == 0 <==> value == 0
            &&& base128(e) == value
        }),
{
    lemma2_to64_rest();
    lemma_pow2_strictly_increases(64, 70);
    lemma_varint_bytes(value as nat, 10);
    lemma_last_digit(value as nat);
}

/// The last byte of a varint is zero for zero alone.
proof fn lemma_last_digit(value: nat)
    ensures
        varint_bytes(value).len() > 0,
        varint_bytes(value).last() == 0 <==> value == 0,
    decreases value,
{
    if value >= 128 {
        lemma_last_digit(value / 128);
        assert(varint_bytes(value).last() == varint_bytes(value / 128).last());
    }
}

/// What bytes stand for as digits: one byte for its low seven bits, and more
/// bytes behind count 128 times as much for each in front of them.
pub proof fn digits_count_by_place(s: Seq<u8>, b: u8)
    ensures
        base128(Seq::<u8>::empty()) == 0,
        base128(seq![b]) == b % 128,
        base128(s.push(b)) == base128(s) + (b % 128) * pow2(7 * s.len()),
        base128(seq![b] + s) == b % 128 + 128 * base128(s),
{
    lemma_base128_push(s, b);
    assert(seq![b].drop_first() =~= Seq::<u8>::empty());
    assert((seq![b] + s).drop_first() =~= s);
}

/// A varint is read up to the first byte whose high bit is clear: its value is
/// that of the digits, in 64 bits. There is none where that byte is not among
/// the first ten, or where there is no such byte.
pub proof fn varint_is_read(blob: &[u8], start: usize, digits: Seq<u8>, r: Option<(u64, usize)>)
    requires
        start <= blob@.len(),
        call_ensures(read_varint, (blob, start), r),
        digits.is_prefix_of(blob@.skip(start as int)),
        forall|i: int| 0 <= i < digits.len() - 1 ==> #[trigger] digits[i] >= 128,
        digits.len() > 0,
    ensures
        digits.last() < 128 && digits.len() <= 10 ==> (r matches Some((value, end)) && value
            == base128(digits) % 0x1_0000_0000_0000_0000 && end == start + digits.len()),
        digits.last() < 128 && digits.len() > 10 ==> r is None,
        digits.last() >= 128 && digits == blob@.skip(start as int) ==> r is None,
        digits.last() >= 128 && digits.len() >= 10 ==> r is None,
{
    let s = blob@.skip(start as int);
    let n = digits.len() as int;
    assert(forall|i: int| 0 <= i < n ==> s[i] == #[trigger] digits[i]);
    assert forall|i: int| 0 <= i < n - 1 implies s[i] >= 128 by {
        assert(digits[i] >= 128);
    }
    lemma_continued(s, n - 1);
    assert(s.skip(n - 1)[0] == digits[n - 1]);
    if digits.last() < 128 {
        assert(s.take(n) =~= digits);
        assert(blob.len() == blob@.len());
    } else {
        lemma_continued(s, n);
        if digits == s {
            assert(s.skip(n).len() == 0);
        }
    }
}

} // verus!
