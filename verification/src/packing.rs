//! Fixed-width little-endian packing of unsigned integers.
//!
//! A 32-bit value is packed into exactly four bytes and a 64-bit value into
//! exactly eight, least significant byte first. Unpacking reads byte `i` as
//! bits `[8i, 8i + 8)` and refuses a buffer of any other length.

use vstd::prelude::*;

verus! {

/// Number of bytes of a packed 32-bit value.
pub const U32SIZE: usize = 4;

/// Number of bytes of a packed 64-bit value.
pub const U64SIZE: usize = 8;

/// A buffer that does not hold exactly the bytes of one integer.
#[derive(Debug, Clone, Copy, PartialEq, Eq, Structural)]
pub struct WrongWidth {
    /// The number of bytes that the integer takes.
    pub expected: usize,
    /// The number of bytes that the buffer holds.
    pub found: usize,
}

/// 256 to the power `n`.
pub open spec fn pow256(n: nat) -> nat
    decreases n,
{
    if n == 0 {
        1
    } else {
        256 * pow256((n - 1) as nat)
    }
}

/// The little-endian digits of `x` in base 256, `width` of them: digit `i`
/// is bits `[8i, 8i + 8)` of `x`.
pub open spec fn le_bytes(x: nat, width: nat) -> Seq<u8>
    decreases width,
{
    if width == 0 {
        Seq::empty()
    } else {
        seq![(x % 256) as u8] + le_bytes(x / 256, (width - 1) as nat)
    }
}

/// The number whose little-endian base-256 digits are `bytes`.
pub open spec fn le_value(bytes: Seq<u8>) -> nat
    decreases bytes.len(),
{
    if bytes.len() == 0 {
        0
    } else {
        bytes[0] as nat + 256 * le_value(bytes.drop_first())
    }
}

/// The packed form of a 32-bit value.
pub open spec fn encode32(x: u32) -> Seq<u8> {
    le_bytes(x as nat, 4)
}

/// The packed form of a 64-bit value.
pub open spec fn encode64(x: u64) -> Seq<u8> {
    le_bytes(x as nat, 8)
}

/// The 32-bit value that `bytes` packs, if `bytes` has exactly four bytes.
pub open spec fn decode32(bytes: Seq<u8>) -> Result<u32, WrongWidth> {
    if bytes.len() == 4 {
        Ok(le_value(bytes) as u32)
    } else {
        Err(WrongWidth { expected: 4, found: bytes.len() as usize })
    }
}

/// The 64-bit value that `bytes` packs, if `bytes` has exactly eight bytes.
pub open spec fn decode64(bytes: Seq<u8>) -> Result<u64, WrongWidth> {
    if bytes.len() == 8 {
        Ok(le_value(bytes) as u64)
    } else {
        Err(WrongWidth { expected: 8, found: bytes.len() as usize })
    }
}

/// `le_bytes` gives as many digits as it is asked for.
pub proof fn lemma_le_bytes_len(x: nat, width: nat)
    ensures
        le_bytes(x, width).len() == width,
    decreases width,
{
    if width > 0 {
        lemma_le_bytes_len(x / 256, (width - 1) as nat);
    }
}

/// A buffer of `n` bytes packs a number below `256^n`.
pub proof fn lemma_le_value_bound(bytes: Seq<u8>)
    ensures
        le_value(bytes) < pow256(bytes.len()),
    decreases bytes.len(),
{
    if bytes.len() > 0 {
        lemma_le_value_bound(bytes.drop_first());
    }
}

/// Digits then number: a number below `256^width` is the value of its own
/// `width` digits.
pub proof fn lemma_le_value_of_bytes(x: nat, width: nat)
    requires
        x < pow256(width),
    ensures
        le_value(le_bytes(x, width)) == x,
    decreases width,
{
    if width > 0 {
        let rest = le_bytes(x / 256, (width - 1) as nat);
        let all = le_bytes(x, width);
        lemma_le_value_of_bytes(x / 256, (width - 1) as nat);
        assert(all.len() > 0);
        assert(all[0] == (x % 256) as u8);
        assert(all.drop_first() =~= rest);
    }
}

/// Every 32-bit value is below `256^4`, every 64-bit value below `256^8`.
pub proof fn lemma_pow256_widths()
    ensures
        pow256(4) == 0x1_0000_0000,
        pow256(8) == 0x1_0000_0000_0000_0000,
{
    reveal_with_fuel(pow256, 9);
}

/// Unpacking the packed form of a 32-bit value gives the value back.
pub proof fn lemma_round_trip32(x: u32)
    ensures
        decode32(encode32(x)) == Ok::<u32, WrongWidth>(x),
{
    lemma_pow256_widths();
    lemma_le_bytes_len(x as nat, 4);
    lemma_le_value_of_bytes(x as nat, 4);
}

/// Unpacking the packed form of a 64-bit value gives the value back.
pub proof fn lemma_round_trip64(x: u64)
    ensures
        decode64(encode64(x)) == Ok::<u64, WrongWidth>(x),
{
    lemma_pow256_widths();
    lemma_le_bytes_len(x as nat, 8);
    lemma_le_value_of_bytes(x as nat, 8);
}

/// The four bytes of `val`, least significant first.
pub fn u32_to_u8s(val: u32) -> (out: [u8; 4])
    ensures
        out@ == encode32(val),
{
    let b0: u8 = (val & 0xff) as u8;
    let b1: u8 = ((val >> 8) & 0xff) as u8;
    let b2: u8 = ((val >> 16) & 0xff) as u8;
    let b3: u8 = ((val >> 24) & 0xff) as u8;
    proof {
        assert(val & 0xff == val % 256) by (bit_vector);
        assert((val >> 8) & 0xff == (val / 256) % 256) by (bit_vector);
        assert((val >> 16) & 0xff == (val / 256 / 256) % 256) by (bit_vector);
        assert((val >> 24) & 0xff == (val / 256 / 256 / 256) % 256) by (bit_vector);
        reveal_with_fuel(le_bytes, 5);
    }
    let out = [b0, b1, b2, b3];
    assert(out@ =~= le_bytes(val as nat, 4));
    out
}

/// The eight bytes of `val`, least significant first.
pub fn u64_to_u8s(val: u64) -> (out: [u8; 8])
    ensures
        out@ == encode64(val),
{
    let b0: u8 = (val & 0xff) as u8;
    let b1: u8 = ((val >> 8) & 0xff) as u8;
    let b2: u8 = ((val >> 16) & 0xff) as u8;
    let b3: u8 = ((val >> 24) & 0xff) as u8;
    let b4: u8 = ((val >> 32) & 0xff) as u8;
    let b5: u8 = ((val >> 40) & 0xff) as u8;
    let b6: u8 = ((val >> 48) & 0xff) as u8;
    let b7: u8 = ((val >> 56) & 0xff) as u8;
    proof {
        assert(val & 0xff == val % 256) by (bit_vector);
        assert((val >> 8) & 0xff == (val / 256) % 256) by (bit_vector);
        assert((val >> 16) & 0xff == (val / 256 / 256) % 256) by (bit_vector);
        assert((val >> 24) & 0xff == (val / 256 / 256 / 256) % 256) by (bit_vector);
        assert((val >> 32) & 0xff == (val / 256 / 256 / 256 / 256) % 256) by (bit_vector);
        assert((val >> 40) & 0xff == (val / 256 / 256 / 256 / 256 / 256) % 256) by (bit_vector);
        assert((val >> 48) & 0xff == (val / 256 / 256 / 256 / 256 / 256 / 256) % 256)
            by (bit_vector);
        assert((val >> 56) & 0xff == (val / 256 / 256 / 256 / 256 / 256 / 256 / 256) % 256)
            by (bit_vector);
        reveal_with_fuel(le_bytes, 9);
    }
    let out = [b0, b1, b2, b3, b4, b5, b6, b7];
    assert(out@ =~= le_bytes(val as nat, 8));
    out
}

/// The 32-bit value that `vec` packs. A buffer of any length but four is
/// refused: nothing is cut off and nothing is read that is not there.
pub fn u8s_to_u32(vec: Vec<u8>) -> (out: Result<u32, WrongWidth>)
    ensures
        out == decode32(vec@),
{
    if vec.len() != U32SIZE {
        return Err(WrongWidth { expected: U32SIZE, found: vec.len() });
    }
    let mut output: u32 = 0;
    let mut i: usize = U32SIZE;
    proof {
        lemma_pow256_widths();
        assert(vec@.subrange(4, 4) =~= Seq::<u8>::empty());
    }
    while i > 0
        invariant
            vec.len() == 4,
            i <= 4,
            output == le_value(vec@.subrange(i as int, 4)),
            pow256(4) == 0x1_0000_0000,
        decreases i,
    {
        i = i - 1;
        proof {
            let tail = vec@.subrange(i as int, 4);
            lemma_le_value_bound(tail);
            lemma_pow256_le(tail.len(), 4);
            assert(tail.drop_first() =~= vec@.subrange(i + 1, 4));
        }
        output = output * 256 + vec[i] as u32;
    }
    assert(vec@.subrange(0, 4) =~= vec@);
    Ok(output)
}

/// The 64-bit value that `vec` packs. A buffer of any length but eight is
/// refused: nothing is cut off and nothing is read that is not there.
pub fn u8s_to_u64(vec: Vec<u8>) -> (out: Result<u64, WrongWidth>)
    ensures
        out == decode64(vec@),
{
    if vec.len() != U64SIZE {
        return Err(WrongWidth { expected: U64SIZE, found: vec.len() });
    }
    let mut output: u64 = 0;
    let mut i: usize = U64SIZE;
    proof {
        lemma_pow256_widths();
        assert(vec@.subrange(8, 8) =~= Seq::<u8>::empty());
    }
    while i > 0
        invariant
            vec.len() == 8,
            i <= 8,
            output == le_value(vec@.subrange(i as int, 8)),
            pow256(8) == 0x1_0000_0000_0000_0000,
        decreases i,
    {
        i = i - 1;
        proof {
            let tail = vec@.subrange(i as int, 8);
            lemma_le_value_bound(tail);
            lemma_pow256_le(tail.len(), 8);
            assert(tail.drop_first() =~= vec@.subrange(i + 1, 8));
        }
        output = output * 256 + vec[i] as u64;
    }
    assert(vec@.subrange(0, 8) =~= vec@);
    Ok(output)
}

/// `pow256` does not fall as its argument grows.
pub proof fn lemma_pow256_le(m: nat, n: nat)
    requires
        m <= n,
    ensures
        pow256(m) <= pow256(n),
        pow256(m) >= 1,
    decreases n,
{
    if m < n {
        lemma_pow256_le(m, (n - 1) as nat);
    } else if m > 0 {
        lemma_pow256_le((m - 1) as nat, (m - 1) as nat);
    }
}

} // verus!
