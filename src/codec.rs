//! Scalars to and from bytes in a target's byte order.

use vstd::prelude::*;

use byteorder::ByteOrder as _;

use crate::arch::ByteOrder;

verus! {

/// 256 to the power `n`.
pub open spec fn pow256(n: nat) -> nat
    decreases n,
{
    if n == 0 {
        1
    } else {
        256 * pow256((n - 1) as nat)
    }
}

/// The number whose little-endian bytes are `s`.
pub open spec fn le_value(s: Seq<u8>) -> nat
    decreases s.len(),
{
    if s.len() == 0 {
        0
    } else {
        s[0] as nat + 256 * le_value(s.drop_first())
    }
}

/// The number whose big-endian bytes are `s`.
pub open spec fn be_value(s: Seq<u8>) -> nat
    decreases s.len(),
{
    if s.len() == 0 {
        0
    } else {
        be_value(s.drop_last()) * 256 + s.last() as nat
    }
}

/// The `n` little-endian bytes of `v` (modulo `256^n`).
pub open spec fn le_bytes(v: nat, n: nat) -> Seq<u8>
    decreases n,
{
    if n == 0 {
        Seq::empty()
    } else {
        seq![(v % 256) as u8] + le_bytes(v / 256, (n - 1) as nat)
    }
}

/// The `n` big-endian bytes of `v` (modulo `256^n`).
pub open spec fn be_bytes(v: nat, n: nat) -> Seq<u8>
    decreases n,
{
    if n == 0 {
        Seq::empty()
    } else {
        be_bytes(v / 256, (n - 1) as nat).push((v % 256) as u8)
    }
}

pub open spec fn value_of(order: ByteOrder, s: Seq<u8>) -> nat {
    match order {
        ByteOrder::LittleEndian => le_value(s),
        ByteOrder::BigEndian => be_value(s),
    }
}

pub open spec fn bytes_of(order: ByteOrder, v: nat, n: nat) -> Seq<u8> {
    match order {
        ByteOrder::LittleEndian => le_bytes(v, n),
        ByteOrder::BigEndian => be_bytes(v, n),
    }
}

/// The two's complement reading of an unsigned `bits`-bit value.
pub open spec fn to_signed(v: nat, bits: nat) -> int {
    if v < pow2(bits) / 2 {
        v as int
    } else {
        v - pow2(bits)
    }
}

/// The unsigned `bits`-bit pattern of a signed value.
pub open spec fn to_unsigned(v: int, bits: nat) -> nat {
    if v < 0 {
        (v + pow2(bits)) as nat
    } else {
        v as nat
    }
}

pub open spec fn pow2(bits: nat) -> nat {
    vstd::arithmetic::power2::pow2(bits)
}

/// Relies on byteorder's `LittleEndian::read_uint`: the first `nbytes` bytes
/// read as a little-endian number; it panics unless `1 <= nbytes <= 8` and the
/// buffer holds `nbytes` bytes.
#[verifier::external_body]
fn read_uint_le(buf: &[u8], nbytes: usize) -> (r: u64)
    requires
        1 <= nbytes <= 8,
        nbytes <= buf@.len(),
    ensures
        r == le_value(buf@.subrange(0, nbytes as int)),
{
    byteorder::LittleEndian::read_uint(buf, nbytes)
}

/// Relies on byteorder's `BigEndian::read_uint`: the first `nbytes` bytes read
/// as a big-endian number; it panics unless `1 <= nbytes <= 8` and the buffer
/// holds `nbytes` bytes.
#[verifier::external_body]
fn read_uint_be(buf: &[u8], nbytes: usize) -> (r: u64)
    requires
        1 <= nbytes <= 8,
        nbytes <= buf@.len(),
    ensures
        r == be_value(buf@.subrange(0, nbytes as int)),
{
    byteorder::BigEndian::read_uint(buf, nbytes)
}

/// Relies on byteorder's `LittleEndian::write_uint`: `n` written as `nbytes`
/// little-endian bytes at the front of the buffer, the rest untouched; it
/// panics unless `n` fits in `nbytes` bytes, `nbytes <= 8` and the buffer
/// holds `nbytes` bytes.
#[verifier::external_body]
fn write_uint_le(buf: &mut Vec<u8>, n: u64, nbytes: usize)
    requires
        1 <= nbytes <= 8,
        n < pow256(nbytes as nat),
        nbytes <= old(buf)@.len(),
    ensures
        final(buf)@ == le_bytes(n as nat, nbytes as nat) + old(buf)@.subrange(
            nbytes as int,
            old(buf)@.len() as int,
        ),
{
    byteorder::LittleEndian::write_uint(&mut buf[..], n, nbytes)
}

/// Relies on byteorder's `BigEndian::write_uint`: `n` written as `nbytes`
/// big-endian bytes at the front of the buffer, the rest untouched; it panics
/// unless `n` fits in `nbytes` bytes, `nbytes <= 8` and the buffer holds
/// `nbytes` bytes.
#[verifier::external_body]
fn write_uint_be(buf: &mut Vec<u8>, n: u64, nbytes: usize)
    requires
        1 <= nbytes <= 8,
        n < pow256(nbytes as nat),
        nbytes <= old(buf)@.len(),
    ensures
        final(buf)@ == be_bytes(n as nat, nbytes as nat) + old(buf)@.subrange(
            nbytes as int,
            old(buf)@.len() as int,
        ),
{
    byteorder::BigEndian::write_uint(&mut buf[..], n, nbytes)
}

/// The unsigned number held in the first `width` bytes of `buf`.
pub fn decode_uint(order: ByteOrder, buf: &[u8], width: usize) -> (r: u64)
    requires
        1 <= width <= 8,
        width <= buf@.len(),
    ensures
        r == value_of(order, buf@.subrange(0, width as int)),
{
    match order {
        ByteOrder::LittleEndian => read_uint_le(buf, width),
        ByteOrder::BigEndian => read_uint_be(buf, width),
    }
}

/// `v` as `width` bytes in the given order.
pub fn encode_uint(order: ByteOrder, v: u64, width: usize) -> (r: Vec<u8>)
    requires
        1 <= width <= 8,
        v < pow256(width as nat),
    ensures
        r@ == bytes_of(order, v as nat, width as nat),
        r@.len() == width,
{
    let mut buf: Vec<u8> = Vec::new();
    let mut i: usize = 0;
    while i < width
        invariant
            i <= width,
            buf@.len() == i,
        decreases width - i,
    {
        buf.push(0);
        i = i + 1;
    }
    match order {
        ByteOrder::LittleEndian => write_uint_le(&mut buf, v, width),
        ByteOrder::BigEndian => write_uint_be(&mut buf, v, width),
    }
    proof {
        assert(buf@ =~= bytes_of(order, v as nat, width as nat));
        lemma_uint_round_trip(order, v as nat, width as nat);
    }
    buf
}

proof fn lemma_pow256_facts()
    ensures
        pow256(4) == 0x1_0000_0000,
        pow256(8) == 0x1_0000_0000_0000_0000,
        pow2(32) == 0x1_0000_0000,
        pow2(64) == 0x1_0000_0000_0000_0000,
{
    assert(pow256(0) == 1);
    assert(pow256(1) == 256);
    assert(pow256(2) == 0x1_0000);
    assert(pow256(3) == 0x100_0000);
    assert(pow256(4) == 0x1_0000_0000);
    assert(pow256(5) == 0x100_0000_0000);
    assert(pow256(6) == 0x1_0000_0000_0000);
    assert(pow256(7) == 0x100_0000_0000_0000);
    assert(pow256(8) == 0x1_0000_0000_0000_0000);
    vstd::arithmetic::power2::lemma2_to64();
    vstd::arithmetic::power2::lemma2_to64_rest();
}

proof fn lemma_le_round_trip(v: nat, n: nat)
    requires
        v < pow256(n),
    ensures
        le_value(le_bytes(v, n)) == v,
        le_bytes(v, n).len() == n,
    decreases n,
{
    if n > 0 {
        let t = le_bytes(v / 256, (n - 1) as nat);
        assert(v / 256 < pow256((n - 1) as nat)) by {
            vstd::arithmetic::div_mod::lemma_div_by_multiple_is_strongly_ordered(
                v as int, 256 * pow256((n - 1) as nat) as int, pow256((n - 1) as nat) as int, 256);
        }
        lemma_le_round_trip(v / 256, (n - 1) as nat);
        let s = le_bytes(v, n);
        assert(s.drop_first() =~= t);
        assert(s[0] as nat == v % 256);
        vstd::arithmetic::div_mod::lemma_fundamental_div_mod(v as int, 256);
    }
}

proof fn lemma_be_round_trip(v: nat, n: nat)
    requires
        v < pow256(n),
    ensures
        be_value(be_bytes(v, n)) == v,
        be_bytes(v, n).len() == n,
    decreases n,
{
    if n > 0 {
        let t = be_bytes(v / 256, (n - 1) as nat);
        assert(v / 256 < pow256((n - 1) as nat)) by {
            vstd::arithmetic::div_mod::lemma_div_by_multiple_is_strongly_ordered(
                v as int, 256 * pow256((n - 1) as nat) as int, pow256((n - 1) as nat) as int, 256);
        }
        lemma_be_round_trip(v / 256, (n - 1) as nat);
        let s = be_bytes(v, n);
        assert(s.drop_last() =~= t);
        assert(s.last() as nat == v % 256);
        vstd::arithmetic::div_mod::lemma_fundamental_div_mod(v as int, 256);
    }
}

/// Decoding the encoding of an unsigned value that fits in `n` bytes gives
/// the value back, in either byte order.
pub proof fn lemma_uint_round_trip(order: ByteOrder, v: nat, n: nat)
    requires
        v < pow256(n),
    ensures
        bytes_of(order, v, n).len() == n,
        value_of(order, bytes_of(order, v, n)) == v,
{
    lemma_le_round_trip(v, n);
    lemma_be_round_trip(v, n);
}

/// Decoding the encoding of a signed value gives the value back, in either
/// byte order, for 32- and 64-bit values.
pub proof fn lemma_signed_round_trip(order: ByteOrder, v: int, bits: nat)
    requires
        bits == 32 || bits == 64,
        -pow2(bits) / 2 <= v < pow2(bits) / 2,
    ensures
        to_signed(value_of(order, bytes_of(order, to_unsigned(v, bits), bits / 8)), bits) == v,
{
    lemma_pow256_facts();
    lemma_uint_round_trip(order, to_unsigned(v, bits), bits / 8);
}

proof fn lemma_i64_cast(u: u64)
    ensures
        (u as i64) as int == to_signed(u as nat, 64),
{
    lemma_pow256_facts();
    if u < 0x8000_0000_0000_0000 {
        assert((u as i64) as int == u as int) by (bit_vector)
            requires u < 0x8000_0000_0000_0000u64;
    } else {
        assert((u as i64) as int == u as int - 0x1_0000_0000_0000_0000) by (bit_vector)
            requires u >= 0x8000_0000_0000_0000u64;
    }
}

proof fn lemma_i32_cast(u: u32)
    ensures
        (u as i32) as int == to_signed(u as nat, 32),
{
    lemma_pow256_facts();
    if u < 0x8000_0000 {
        assert((u as i32) as int == u as int) by (bit_vector)
            requires u < 0x8000_0000u32;
    } else {
        assert((u as i32) as int == u as int - 0x1_0000_0000) by (bit_vector)
            requires u >= 0x8000_0000u32;
    }
}

pub fn decode_u64(order: ByteOrder, buf: &[u8]) -> (r: u64)
    requires
        8 <= buf@.len(),
    ensures
        r == value_of(order, buf@.subrange(0, 8)),
{
    decode_uint(order, buf, 8)
}

pub fn decode_u32(order: ByteOrder, buf: &[u8]) -> (r: u32)
    requires
        4 <= buf@.len(),
    ensures
        r == value_of(order, buf@.subrange(0, 4)),
{
    let v = decode_uint(order, buf, 4);
    proof {
        lemma_pow256_facts();
        lemma_value_bound(order, buf@.subrange(0, 4));
    }
    v as u32
}

pub fn decode_i64(order: ByteOrder, buf: &[u8]) -> (r: i64)
    requires
        8 <= buf@.len(),
    ensures
        r == to_signed(value_of(order, buf@.subrange(0, 8)), 64),
{
    let v = decode_uint(order, buf, 8);
    proof {
        lemma_i64_cast(v);
    }
    v as i64
}

pub fn decode_i32(order: ByteOrder, buf: &[u8]) -> (r: i32)
    requires
        4 <= buf@.len(),
    ensures
        r == to_signed(value_of(order, buf@.subrange(0, 4)), 32),
{
    let v = decode_u32(order, buf);
    proof {
        lemma_i32_cast(v);
    }
    v as i32
}

pub fn encode_u64(order: ByteOrder, v: u64) -> (r: Vec<u8>)
    ensures
        r@ == bytes_of(order, v as nat, 8),
        r@.len() == 8,
{
    proof {
        lemma_pow256_facts();
    }
    encode_uint(order, v, 8)
}

pub fn encode_u32(order: ByteOrder, v: u32) -> (r: Vec<u8>)
    ensures
        r@ == bytes_of(order, v as nat, 4),
        r@.len() == 4,
{
    proof {
        lemma_pow256_facts();
    }
    encode_uint(order, v as u64, 4)
}

pub fn encode_i64(order: ByteOrder, v: i64) -> (r: Vec<u8>)
    ensures
        r@ == bytes_of(order, to_unsigned(v as int, 64), 8),
        r@.len() == 8,
{
    proof {
        lemma_pow256_facts();
        if v < 0 {
            assert((v as u64) as int == v as int + 0x1_0000_0000_0000_0000) by (bit_vector)
                requires v < 0i64;
        } else {
            assert((v as u64) as int == v as int) by (bit_vector)
                requires v >= 0i64;
        }
    }
    encode_uint(order, v as u64, 8)
}

pub fn encode_i32(order: ByteOrder, v: i32) -> (r: Vec<u8>)
    ensures
        r@ == bytes_of(order, to_unsigned(v as int, 32), 4),
        r@.len() == 4,
{
    proof {
        lemma_pow256_facts();
        if v < 0 {
            assert((v as u32) as int == v as int + 0x1_0000_0000) by (bit_vector)
                requires v < 0i32;
        } else {
            assert((v as u32) as int == v as int) by (bit_vector)
                requires v >= 0i32;
        }
    }
    encode_uint(order, (v as u32) as u64, 4)
}

proof fn lemma_value_bound(order: ByteOrder, s: Seq<u8>)
    ensures
        value_of(order, s) < pow256(s.len()),
    decreases s.len(),
{
    if s.len() > 0 {
        lemma_value_bound(order, s.drop_first());
        lemma_value_bound(order, s.drop_last());
        assert(pow256(s.len()) == 256 * pow256((s.len() - 1) as nat));
    }
}

} // verus!
