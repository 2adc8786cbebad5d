//! Bit strings read most significant bit first, over bytes and over 11-bit
//! word indices, with the arithmetic facts that relate the two readings.
use vstd::arithmetic::div_mod::{
    lemma_div_denominator, lemma_fundamental_div_mod, lemma_fundamental_div_mod_converse,
};
use vstd::arithmetic::power2::{lemma2_to64, lemma_pow2_pos, lemma_pow2_unfold, pow2};
use vstd::prelude::*;

verus! {

/// Bit `i` of a byte string, counting from the most significant bit of the first byte.
pub open spec fn byte_bit(data: Seq<u8>, i: int) -> nat {
    ((data[i / 8] as nat) / pow2((7 - i % 8) as nat)) % 2
}

/// Bit `i` of a string of 11-bit word indices, most significant bit first.
pub open spec fn index_bit(indices: Seq<u16>, i: int) -> nat {
    ((indices[i / 11] as nat) / pow2((10 - i % 11) as nat)) % 2
}

pub open spec fn byte_bits(data: Seq<u8>) -> spec_fn(int) -> nat {
    |i: int| byte_bit(data, i)
}

pub open spec fn index_bits(indices: Seq<u16>) -> spec_fn(int) -> nat {
    |i: int| index_bit(indices, i)
}

/// The number written by the `len` bits of `bits` that start at `start`.
pub open spec fn msb_value(bits: spec_fn(int) -> nat, start: int, len: nat) -> nat
    decreases len,
{
    if len == 0 {
        0
    } else {
        2 * msb_value(bits, start, (len - 1) as nat) + bits(start + len - 1)
    }
}

pub open spec fn is_bit_string(bits: spec_fn(int) -> nat, start: int, len: nat) -> bool {
    forall|i: int| start <= i < start + len ==> #[trigger] bits(i) <= 1
}

pub proof fn lemma_byte_bits_are_bits(data: Seq<u8>, start: int, len: nat)
    ensures
        is_bit_string(byte_bits(data), start, len),
{
    assert forall|i: int| start <= i < start + len implies #[trigger] byte_bits(data)(i) <= 1 by {
        lemma_pow2_pos((7 - i % 8) as nat);
    }
}

pub proof fn lemma_index_bits_are_bits(indices: Seq<u16>, start: int, len: nat)
    ensures
        is_bit_string(index_bits(indices), start, len),
{
    assert forall|i: int| start <= i < start + len implies #[trigger] index_bits(indices)(i)
        <= 1 by {
        lemma_pow2_pos((10 - i % 11) as nat);
    }
}

pub proof fn lemma_msb_value_bound(bits: spec_fn(int) -> nat, start: int, len: nat)
    requires
        is_bit_string(bits, start, len),
    ensures
        msb_value(bits, start, len) < pow2(len),
    decreases len,
{
    if len == 0 {
        lemma2_to64();
    } else {
        lemma_msb_value_bound(bits, start, (len - 1) as nat);
        lemma_pow2_unfold(len);
        assert(bits(start + len - 1) <= 1);
    }
}

/// Reading `a + b` bits is reading `a` bits, shifting them by `b`, and adding the next `b`.
pub proof fn lemma_msb_value_split(bits: spec_fn(int) -> nat, start: int, a: nat, b: nat)
    ensures
        msb_value(bits, start, a + b) == msb_value(bits, start, a) * pow2(b) + msb_value(
            bits,
            start + a,
            b,
        ),
    decreases b,
{
    if b == 0 {
        lemma2_to64();
        assert((a + b) as nat == a);
    } else {
        let b1 = (b - 1) as nat;
        lemma_msb_value_split(bits, start, a, b1);
        lemma_pow2_unfold(b);
        assert((a + b - 1) as nat == a + b1);
        let x = msb_value(bits, start, a);
        let p = pow2(b1);
        assert(2 * (x * p) == x * (2 * p)) by (nonlinear_arith);
    }
}

/// Bit `j` of a value read from a bit string is the `j`-th bit of the string.
pub proof fn lemma_msb_value_bit(bits: spec_fn(int) -> nat, start: int, len: nat, j: nat)
    requires
        is_bit_string(bits, start, len),
        j < len,
    ensures
        (msb_value(bits, start, len) / pow2((len - 1 - j) as nat)) % 2 == bits(start + j),
{
    let rest = (len - 1 - j) as nat;
    lemma_msb_value_split(bits, start, j + 1, rest);
    assert(j + 1 + rest == len);
    let hi = msb_value(bits, start, j + 1);
    let lo = msb_value(bits, start + j + 1, rest);
    assert(is_bit_string(bits, start + j + 1, rest));
    lemma_msb_value_bound(bits, start + j + 1, rest);
    lemma_pow2_pos(rest);
    lemma_fundamental_div_mod_converse(
        msb_value(bits, start, len) as int,
        pow2(rest) as int,
        hi as int,
        lo as int,
    );
    assert(hi == 2 * msb_value(bits, start, j) + bits(start + j));
    assert(bits(start + j) <= 1);
    lemma_fundamental_div_mod_converse(
        hi as int,
        2,
        msb_value(bits, start, j) as int,
        bits(start + j) as int,
    );
}

/// Two bit strings that agree on a range read the same value there.
pub proof fn lemma_msb_value_ext(f: spec_fn(int) -> nat, g: spec_fn(int) -> nat, start: int, len: nat)
    requires
        forall|i: int| start <= i < start + len ==> #[trigger] f(i) == g(i),
    ensures
        msb_value(f, start, len) == msb_value(g, start, len),
    decreases len,
{
    if len > 0 {
        lemma_msb_value_ext(f, g, start, (len - 1) as nat);
    }
}

/// The first `j` bits of byte `m` read the byte shifted right by `8 - j`.
pub proof fn lemma_byte_prefix(data: Seq<u8>, m: int, j: nat)
    requires
        0 <= m < data.len(),
        j <= 8,
    ensures
        msb_value(byte_bits(data), 8 * m, j) == (data[m] as nat) / pow2((8 - j) as nat),
    decreases j,
{
    lemma2_to64();
    if j == 0 {
        assert((data[m] as nat) / 256 == 0);
    } else {
        let j1 = (j - 1) as nat;
        lemma_byte_prefix(data, m, j1);
        let i = 8 * m + j1;
        assert(i / 8 == m && i % 8 == j1) by (nonlinear_arith)
            requires
                i == 8 * m + j1,
                j1 < 8,
        ;
        let x = data[m] as int;
        let p = pow2((8 - j) as nat) as int;
        assert(pow2((8 - j1) as nat) == 2 * p) by {
            lemma_pow2_unfold((8 - j1) as nat);
        }
        lemma_pow2_pos((8 - j) as nat);
        lemma_div_denominator(x, p, 2);
        lemma_fundamental_div_mod(x / p, 2);
        assert(byte_bits(data)(i) == (x / p) % 2);
    }
}

/// Reading the 8 bits of byte `m` gives the byte back.
pub proof fn lemma_byte_value(data: Seq<u8>, m: int)
    requires
        0 <= m < data.len(),
    ensures
        msb_value(byte_bits(data), 8 * m, 8) == data[m],
{
    lemma_byte_prefix(data, m, 8);
    lemma2_to64();
}

/// Bit `i` of a string of indices, each read from 11 bits of `bits`, is bit `i` of `bits`.
pub proof fn lemma_index_bit_of_read(indices: Seq<u16>, bits: spec_fn(int) -> nat, i: int)
    requires
        0 <= i < indices.len() * 11,
        is_bit_string(bits, 11 * (i / 11), 11),
        indices[i / 11] == msb_value(bits, 11 * (i / 11), 11),
    ensures
        index_bits(indices)(i) == bits(i),
{
    let k = i / 11;
    let r = i % 11;
    assert(11 * k + r == i && 0 <= r < 11) by (nonlinear_arith)
        requires
            k == i / 11,
            r == i % 11,
            0 <= i,
    ;
    lemma_msb_value_bit(bits, 11 * k, 11, r as nat);
}

pub fn pow2_u32(e: u32) -> (r: u32)
    requires
        e <= 16,
    ensures
        r == pow2(e as nat),
{
    let mut r: u32 = 1;
    let mut i: u32 = 0;
    proof {
        lemma2_to64();
    }
    while i < e
        invariant
            i <= e <= 16,
            r == pow2(i as nat),
        decreases e - i,
    {
        proof {
            lemma2_to64();
            lemma_pow2_unfold((i + 1) as nat);
            vstd::arithmetic::power2::lemma_pow2_strictly_increases(i as nat, 16);
        }
        r = r * 2;
        i = i + 1;
    }
    r
}

/// Reads `len` bits of a byte string starting at bit `start`.
pub fn read_byte_bits(data: &Vec<u8>, start: usize, len: usize) -> (r: u32)
    requires
        len <= 16,
        start + len <= data@.len() * 8,
        start + len <= usize::MAX,
    ensures
        r == msb_value(byte_bits(data@), start as int, len as nat),
{
    let mut acc: u32 = 0;
    let mut j: usize = 0;
    proof {
        lemma2_to64();
    }
    while j < len
        invariant
            j <= len <= 16,
            start + len <= data@.len() * 8,
            start + len <= usize::MAX,
            acc == msb_value(byte_bits(data@), start as int, j as nat),
            acc < pow2(j as nat),
        decreases len - j,
    {
        let p: usize = start + j;
        let shift: u32 = (7 - p % 8) as u32;
        let d: u32 = pow2_u32(shift);
        proof {
            lemma_pow2_pos(shift as nat);
        }
        let bit: u32 = (data[p / 8] as u32 / d) % 2;
        proof {
            assert(bit == byte_bits(data@)(p as int));
            lemma_pow2_unfold((j + 1) as nat);
            vstd::arithmetic::power2::lemma_pow2_strictly_increases((j + 1) as nat, 17);
            lemma2_to64();
        }
        acc = 2 * acc + bit;
        j = j + 1;
    }
    acc
}

/// Reads `len` bits of a string of 11-bit indices starting at bit `start`.
pub fn read_index_bits(indices: &Vec<u16>, start: usize, len: usize) -> (r: u32)
    requires
        len <= 16,
        start + len <= indices@.len() * 11,
        start + len <= usize::MAX,
    ensures
        r == msb_value(index_bits(indices@), start as int, len as nat),
{
    let mut acc: u32 = 0;
    let mut j: usize = 0;
    proof {
        lemma2_to64();
    }
    while j < len
        invariant
            j <= len <= 16,
            start + len <= indices@.len() * 11,
            start + len <= usize::MAX,
            acc == msb_value(index_bits(indices@), start as int, j as nat),
            acc < pow2(j as nat),
        decreases len - j,
    {
        let p: usize = start + j;
        let shift: u32 = (10 - p % 11) as u32;
        let d: u32 = pow2_u32(shift);
        proof {
            lemma_pow2_pos(shift as nat);
        }
        let bit: u32 = (indices[p / 11] as u32 / d) % 2;
        proof {
            assert(bit == index_bits(indices@)(p as int));
            lemma_pow2_unfold((j + 1) as nat);
            vstd::arithmetic::power2::lemma_pow2_strictly_increases((j + 1) as nat, 17);
            lemma2_to64();
        }
        acc = 2 * acc + bit;
        j = j + 1;
    }
    acc
}

} // verus!
