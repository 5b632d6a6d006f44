//! Base-128 variable-length integers, the building block of the wire format.
//!
//! The encoder and decoder are the ones of `prost`; this module states what they
//! compute and proves that reading back a written integer yields it again.

use vstd::prelude::*;

verus! {

/// The little-endian base-128 digits of `value`; every digit but the last
/// carries the continuation bit.
pub open spec fn varint_bytes(value: nat) -> Seq<u8>
    decreases value,
{
    if value < 128 {
        seq![value as u8]
    } else {
        seq![((value % 128) + 128) as u8] + varint_bytes(value / 128)
    }
}

/// The number of bytes up to and including the first one without the
/// continuation bit, if there is one.
pub open spec fn varint_len(bytes: Seq<u8>) -> Option<nat>
    decreases bytes.len(),
{
    if bytes.len() == 0 {
        None
    } else if bytes[0] < 128 {
        Some(1)
    } else {
        match varint_len(bytes.skip(1)) {
            Some(n) => Some(n + 1),
            None => None,
        }
    }
}

/// The number that the first `digits` bytes spell, seven bits each, least
/// significant first.
pub open spec fn varint_value(bytes: Seq<u8>, digits: nat) -> nat
    decreases digits,
{
    if digits == 0 || bytes.len() == 0 {
        0
    } else {
        (bytes[0] % 128) as nat + 128 * varint_value(bytes.skip(1), (digits - 1) as nat)
    }
}

/// What reading one varint from the front of `bytes` gives: the number and how
/// many bytes it took. A varint takes at most ten bytes, and a tenth byte may
/// only contribute the top bit of a 64-bit number.
pub open spec fn parse_varint(bytes: Seq<u8>) -> Option<(u64, nat)> {
    match varint_len(bytes) {
        Some(n) => if n < 10 || (n == 10 && bytes[9] < 2) {
            Some((varint_value(bytes, n) as u64, n))
        } else {
            None
        },
        None => None,
    }
}

pub open spec fn pow128(k: nat) -> nat
    decreases k,
{
    if k == 0 {
        1
    } else {
        128 * pow128((k - 1) as nat)
    }
}

/// A varint is never empty, and a number below `128^k` takes at most `k` bytes.
pub proof fn lemma_varint_bytes_len(value: nat, k: nat)
    requires
        k >= 1,
        value < pow128(k),
    ensures
        1 <= varint_bytes(value).len() <= k,
    decreases value,
{
    if value >= 128 {
        assert(pow128(1) == 128) by {
            reveal_with_fuel(pow128, 2);
        }
        assert(k >= 2);
        assert(pow128(k) == 128 * pow128((k - 1) as nat));
        assert(value / 128 < pow128((k - 1) as nat)) by (nonlinear_arith)
            requires
                value < 128 * pow128((k - 1) as nat),
        ;
        lemma_varint_bytes_len(value / 128, (k - 1) as nat);
    }
}

pub proof fn lemma_pow128_values()
    ensures
        pow128(9) == 0x8000_0000_0000_0000,
        pow128(10) == 0x40_0000_0000_0000_0000,
{
    reveal_with_fuel(pow128, 11);
}

/// The digit at each position of a written varint.
pub proof fn lemma_varint_bytes_digit(value: nat, i: nat)
    requires
        i < varint_bytes(value).len(),
    ensures
        i + 1 < varint_bytes(value).len() ==> varint_bytes(value)[i as int] == (value / pow128(i))
            % 128 + 128,
        i + 1 == varint_bytes(value).len() ==> varint_bytes(value)[i as int] == value / pow128(i),
        i + 1 == varint_bytes(value).len() ==> value / pow128(i) < 128,
    decreases i,
{
    if value < 128 {
        assert(pow128(0) == 1);
    } else {
        let rest = varint_bytes(value / 128);
        assert(varint_bytes(value) == seq![((value % 128) + 128) as u8] + rest);
        if i == 0 {
            assert(pow128(0) == 1);
            lemma_pow128_grows(1 + value);
            lemma_varint_bytes_len(value / 128, 1 + value);
        } else {
            lemma_varint_bytes_digit(value / 128, (i - 1) as nat);
            assert(varint_bytes(value)[i as int] == rest[i - 1]);
            let p = pow128((i - 1) as nat);
            assert(pow128(i) == 128 * p);
            assert(p > 0) by {
                lemma_pow128_grows((i - 1) as nat);
            }
            assert((value / 128) / p == value / (128 * p)) by (nonlinear_arith)
                requires
                    p > 0,
            ;
        }
    }
}

pub proof fn lemma_pow128_grows(k: nat)
    ensures
        pow128(k) > k,
    decreases k,
{
    if k > 0 {
        lemma_pow128_grows((k - 1) as nat);
    }
}

/// Reading a written varint back, whatever follows it: the length found is the
/// length written, and the value is the number written.
pub proof fn lemma_varint_read_back(value: nat, rest: Seq<u8>)
    ensures
        varint_len(varint_bytes(value) + rest) == Some(varint_bytes(value).len()),
        varint_value(varint_bytes(value) + rest, varint_bytes(value).len()) == value,
    decreases value,
{
    let all = varint_bytes(value) + rest;
    if value < 128 {
        assert(all[0] == value as u8);
        assert(varint_value(all.skip(1), 0) == 0);
    } else {
        let tail = varint_bytes(value / 128);
        assert(all.skip(1) =~= tail + rest);
        assert(all[0] == ((value % 128) + 128) as u8);
        lemma_varint_read_back(value / 128, rest);
        assert(varint_bytes(value).len() == tail.len() + 1);
    }
}

/// A 64-bit number survives being written and read back, whatever follows it.
pub proof fn lemma_parse_varint_of_bytes(value: u64, rest: Seq<u8>)
    ensures
        parse_varint(varint_bytes(value as nat) + rest) == Some(
            (value, varint_bytes(value as nat).len()),
        ),
        1 <= varint_bytes(value as nat).len() <= 10,
{
    let v = value as nat;
    let enc = varint_bytes(v);
    lemma_pow128_values();
    lemma_varint_bytes_len(v, 10);
    lemma_varint_read_back(v, rest);
    if enc.len() == 10 {
        lemma_varint_bytes_digit(v, 9);
        assert((enc + rest)[9] == enc[9]);
        assert(v / pow128(9) < 2);
    }
}

/// A varint that can be read takes between one and ten bytes, all of them
/// present.
pub proof fn lemma_parse_varint_bounds(bytes: Seq<u8>)
    ensures
        parse_varint(bytes) matches Some((_, taken)) ==> 1 <= taken <= 10 && taken <= bytes.len(),
{
    lemma_varint_len_bounds(bytes);
}

pub proof fn lemma_varint_len_bounds(bytes: Seq<u8>)
    ensures
        varint_len(bytes) matches Some(n) ==> 1 <= n <= bytes.len(),
    decreases bytes.len(),
{
    if bytes.len() > 0 && bytes[0] >= 128 {
        lemma_varint_len_bounds(bytes.skip(1));
    }
}

/// Appends the varint encoding of `value` to `buf`.
///
/// Trusted: calls `prost::encoding::encode_varint`, which writes the low seven
/// bits of the value with the continuation bit set for as long as the value is
/// 128 or more, and then the last digit.
#[verifier::external_body]
pub(crate) fn put_varint(value: u64, buf: &mut Vec<u8>)
    ensures
        final(buf)@ == old(buf)@ + varint_bytes(value as nat),
{
    prost::encoding::encode_varint(value, buf);
}

/// The error type of `prost`'s decoders.
#[verifier::external_type_specification]
#[verifier::external_body]
pub struct ExDecodeError(prost::DecodeError);

/// Reads one varint from the front of `data` and returns it with the number of
/// bytes that are left behind it.
///
/// Trusted: calls `prost::encoding::decode_varint` on the slice. That function
/// fails on empty input, when none of the first ten bytes ends the number, and
/// when the tenth byte is 2 or more; otherwise it sums the low seven bits of
/// each byte, shifted by seven per position, and advances past the byte that
/// ends the number.
#[verifier::external_body]
pub(crate) fn read_varint(data: &[u8]) -> (r: Result<(u64, usize), prost::DecodeError>)
    ensures
        match parse_varint(data@) {
            Some((value, taken)) => r.is_ok() && r.unwrap().0 == value && r.unwrap().1 + taken
                == data@.len(),
            None => r.is_err(),
        },
{
    let mut rest: &[u8] = data;
    match prost::encoding::decode_varint(&mut rest) {
        Ok(value) => Ok((value, rest.len())),
        Err(e) => Err(e),
    }
}

} // verus!
