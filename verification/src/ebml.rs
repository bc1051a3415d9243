//! EBML primitives: variable-length integers, elements, numbers.

use vstd::arithmetic::power2::{lemma_pow2_adds, lemma_pow2_unfold, pow2};
use vstd::prelude::*;
use crate::bytes::{
    be_bytes, be_value, lemma_be_bytes_len, lemma_be_round_trip, lemma_empty_add, pow256, push_all,
    push_be,
};

verus! {

broadcast use lemma_empty_add;

/// The number of bytes that the variable-length integer `v` takes.
///
/// `L` bytes hold `7 * L` bits. One byte with the value 127 would be the reserved "unknown
/// length", so that value takes two.
pub open spec fn vint_len(v: nat) -> nat {
    if v < 0x7F {
        1
    } else if v < 0x4000 {
        2
    } else if v < 0x20_0000 {
        3
    } else if v < 0x1000_0000 {
        4
    } else if v < 0x8_0000_0000 {
        5
    } else if v < 0x400_0000_0000 {
        6
    } else if v < 0x2_0000_0000_0000 {
        7
    } else {
        8
    }
}

/// 128 to the power `n`.
pub open spec fn pow128(n: nat) -> nat
    decreases n,
{
    if n == 0 {
        1
    } else {
        128 * pow128((n - 1) as nat)
    }
}

/// The variable-length integer `v`: in `L` bytes a marker bit above `7 * L` bits of value.
/// What is beyond 56 bits runs into the marker.
pub open spec fn vint(v: nat) -> Seq<u8> {
    if v < 0x100_0000_0000_0000 {
        be_bytes(pow128(vint_len(v)) + v, vint_len(v))
    } else {
        seq![1u8 | ((v / 0x100_0000_0000_0000) as u8)] + be_bytes(v % 0x100_0000_0000_0000, 7)
    }
}

/// Encodes an unsigned integer as an EBML variable-length integer.
pub fn ebml_vint(v: u64) -> (r: Vec<u8>)
    ensures
        r@ == vint(v as nat),
{
    let mut out: Vec<u8> = Vec::new();
    proof {
        reveal_with_fuel(pow128, 9);
    }
    if v < 0x7F {
        push_be(&mut out, 0x80 + v, 1);
    } else if v < 0x4000 {
        push_be(&mut out, 0x4000 + v, 2);
    } else if v < 0x20_0000 {
        push_be(&mut out, 0x20_0000 + v, 3);
    } else if v < 0x1000_0000 {
        push_be(&mut out, 0x1000_0000 + v, 4);
    } else if v < 0x8_0000_0000 {
        push_be(&mut out, 0x8_0000_0000 + v, 5);
    } else if v < 0x400_0000_0000 {
        push_be(&mut out, 0x400_0000_0000 + v, 6);
    } else if v < 0x2_0000_0000_0000 {
        push_be(&mut out, 0x2_0000_0000_0000 + v, 7);
    } else if v < 0x100_0000_0000_0000 {
        push_be(&mut out, 0x100_0000_0000_0000 + v, 8);
    } else {
        let top: u8 = (v / 0x100_0000_0000_0000) as u8;
        out.push(1u8 | top);
        assert(out@ =~= seq![1u8 | ((v as nat / 0x100_0000_0000_0000) as u8)]);
        push_be(&mut out, v % 0x100_0000_0000_0000, 7);
    }
    out
}

/// An element: `[id][size][data]`.
pub open spec fn element(id: Seq<u8>, data: Seq<u8>) -> Seq<u8> {
    id + vint(data.len()) + data
}

/// Builds an EBML element: `[id][size][data]`.
pub fn ebml_elem(id: &[u8], data: &[u8]) -> (r: Vec<u8>)
    ensures
        r@ == element(id@, data@),
{
    let mut v: Vec<u8> = Vec::new();
    push_all(&mut v, id);
    push_all(&mut v, ebml_vint(data.len() as u64).as_slice());
    push_all(&mut v, data);
    v
}

/// The number of bytes that `v` takes without leading zeros; at least one.
pub open spec fn uint_len(v: nat) -> nat
    decreases v,
{
    if v < 256 {
        1
    } else {
        1 + uint_len(v / 256)
    }
}

/// An unsigned integer, most significant byte first, as short as can be.
pub open spec fn uint(v: nat) -> Seq<u8> {
    be_bytes(v, uint_len(v))
}

fn push_uint(out: &mut Vec<u8>, v: u64)
    ensures
        final(out)@ == old(out)@ + uint(v as nat),
    decreases v,
{
    if v >= 256 {
        push_uint(out, v / 256);
    } else {
        assert(be_bytes(v as nat / 256, 0) =~= Seq::empty());
    }
    let low: u8 = (v % 256) as u8;
    out.push(low);
    assert(out@ =~= old(out)@ + uint(v as nat));
}

/// Minimal big-endian unsigned integer, at least one byte.
pub fn u64_to_bytes(v: u64) -> (r: Vec<u8>)
    ensures
        r@ == uint(v as nat),
{
    let mut out: Vec<u8> = Vec::new();
    push_uint(&mut out, v);
    out
}

/// The place of the highest bit of `n`.
pub open spec fn log2(n: nat) -> nat
    decreases n,
{
    if n <= 1 {
        0
    } else {
        1 + log2(n / 2)
    }
}

/// The bits of the IEEE 754 double that equals the whole number `n`, for `n` below 2^53.
pub open spec fn double_bits(n: nat) -> nat {
    if n == 0 {
        0
    } else {
        let e = log2(n);
        ((1023 + e) * pow2(52) + n * pow2((52 - e) as nat) - pow2(52)) as nat
    }
}

proof fn lemma_log2_unique(n: nat, e: nat)
    requires
        pow2(e) <= n < pow2(e + 1),
    ensures
        log2(n) == e,
    decreases e,
{
    lemma_pow2_unfold(e + 1);
    if e == 0 {
        vstd::arithmetic::power2::lemma2_to64();
    } else {
        lemma_pow2_unfold(e);
        lemma_log2_unique(n / 2, (e - 1) as nat);
        vstd::arithmetic::power2::lemma_pow2_pos((e - 1) as nat);
    }
}

/// The bits of the double that equals `n`.
pub fn whole_double(n: u64) -> (r: u64)
    requires
        n < 0x20_0000_0000_0000,
    ensures
        r as nat == double_bits(n as nat),
{
    proof {
        vstd::arithmetic::power2::lemma2_to64();
        vstd::arithmetic::power2::lemma2_to64_rest();
    }
    if n == 0 {
        return 0;
    }
    let mut m: u64 = n;
    let mut e: u64 = 52;
    assert(n * pow2(0) == n);
    while m < 0x10_0000_0000_0000
        invariant
            0 < n < 0x20_0000_0000_0000,
            0 <= e <= 52,
            m == n * pow2((52 - e) as nat),
            0 < m < 0x20_0000_0000_0000,
            pow2(52) == 0x10_0000_0000_0000,
            pow2(53) == 0x20_0000_0000_0000,
        decreases e,
    {
        proof {
            if e == 0 {
                assert(n * pow2(52) >= pow2(52)) by (nonlinear_arith)
                    requires
                        n > 0,
                ;
            }
            lemma_pow2_unfold((53 - e) as nat);
            assert(n * (2 * pow2((52 - e) as nat)) == 2 * (n * pow2((52 - e) as nat)))
                by (nonlinear_arith);
        }
        m = m * 2;
        e = e - 1;
    }
    proof {
        let k = (52 - e) as nat;
        lemma_pow2_adds(e as nat, k);
        lemma_pow2_adds((e + 1) as nat, k);
        vstd::arithmetic::power2::lemma_pow2_pos(k);
        assert(pow2(e as nat) <= n) by (nonlinear_arith)
            requires
                n * pow2(k) >= pow2(52),
                pow2(e as nat) * pow2(k) == pow2(52),
                pow2(k) > 0,
        ;
        assert(n < pow2((e + 1) as nat)) by (nonlinear_arith)
            requires
                n * pow2(k) < pow2(53),
                pow2((e + 1) as nat) * pow2(k) == pow2(53),
                pow2(k) > 0,
        ;
        lemma_log2_unique(n as nat, e as nat);
        assert((1023 + e) * 0x10_0000_0000_0000 <= 1075 * 0x10_0000_0000_0000)
            by (nonlinear_arith)
            requires
                e <= 52,
        ;
    }
    (1023 + e) * 0x10_0000_0000_0000 + (m - 0x10_0000_0000_0000)
}

/// The eight bytes of the double that equals `n`.
pub open spec fn double_bytes(n: nat) -> Seq<u8> {
    be_bytes(double_bits(n), 8)
}

/// The double that equals `n`, most significant byte first.
pub fn f64_to_bytes(n: u64) -> (r: Vec<u8>)
    requires
        n < 0x20_0000_0000_0000,
    ensures
        r@ == double_bytes(n as nat),
{
    let mut out: Vec<u8> = Vec::new();
    push_be(&mut out, whole_double(n), 8);
    out
}

/// Size in bytes of an element with an id of `id_len` bytes and `data_len` bytes of data.
pub open spec fn element_size(id_len: nat, data_len: nat) -> nat {
    id_len + vint_len(data_len) + data_len
}

/// The number of bytes of the variable-length integer `v`.
pub fn vint_size(v: u64) -> (r: u64)
    ensures
        r as nat == vint_len(v as nat),
{
    if v < 0x7F {
        1
    } else if v < 0x4000 {
        2
    } else if v < 0x20_0000 {
        3
    } else if v < 0x1000_0000 {
        4
    } else if v < 0x8_0000_0000 {
        5
    } else if v < 0x400_0000_0000 {
        6
    } else if v < 0x2_0000_0000_0000 {
        7
    } else {
        8
    }
}

// ---------------------------------------------------------------- laws

/// A variable-length integer takes as many bytes as `vint_len` says.
pub broadcast proof fn law_vint_len(v: nat)
    ensures
        (#[trigger] vint(v)).len() == vint_len(v),
{
    broadcast use lemma_be_bytes_len;

}

/// The size of an element can be told without building it.
pub proof fn law_element_size(id: Seq<u8>, data: Seq<u8>)
    ensures
        element(id, data).len() == element_size(id.len(), data.len()),
{
    law_vint_len(data.len());
}

/// The value of a variable-length integer: the number without its marker bit.
pub open spec fn vint_value(s: Seq<u8>) -> int {
    be_value(s) - pow128(s.len())
}

/// Reading back a variable-length integer of up to 56 bits gives the number that was written.
pub proof fn law_vint_round_trip(v: nat)
    requires
        v < 0x100_0000_0000_0000,
    ensures
        vint_value(vint(v)) == v,
{
    let l = vint_len(v);
    law_vint_len(v);
    assert(pow128(l) + v < pow256(l)) by {
        reveal_with_fuel(pow128, 9);
        reveal_with_fuel(pow256, 9);
    }
    lemma_be_round_trip(pow128(l) + v, l);
    vstd::arithmetic::div_mod::lemma_small_mod(pow128(l) + v, pow256(l));
}

/// No length is written as the reserved byte `0xFF`.
pub proof fn law_vint_not_reserved(v: nat)
    requires
        v < 0x100_0000_0000_0000,
    ensures
        vint(v) != seq![0xFFu8],
{
    law_vint_len(v);
    law_vint_round_trip(v);
    reveal_with_fuel(pow128, 2);
    if vint(v) == seq![0xFFu8] {
        reveal_with_fuel(be_value, 2);
        assert(seq![0xFFu8].drop_last() =~= Seq::<u8>::empty());
        assert(be_value(seq![0xFFu8]) == 0xFF);
    }
}

proof fn lemma_pow256_uint(v: nat)
    ensures
        v < pow256(uint_len(v)),
        uint_len(v) > 1 ==> v >= pow256((uint_len(v) - 1) as nat),
    decreases v,
{
    reveal_with_fuel(pow256, 2);
    if v >= 256 {
        lemma_pow256_uint(v / 256);
    }
}

/// Reading back an unsigned integer gives the number that was written.
pub proof fn law_uint_round_trip(v: nat)
    ensures
        be_value(uint(v)) == v,
{
    lemma_be_round_trip(v, uint_len(v));
    lemma_pow256_uint(v);
    vstd::arithmetic::div_mod::lemma_small_mod(v, pow256(uint_len(v)));
}

/// An unsigned integer has no leading zero byte, except that zero itself takes one byte.
pub proof fn law_uint_minimal(v: nat)
    ensures
        uint(v).len() >= 1,
        uint(v).len() > 1 ==> v >= pow256((uint(v).len() - 1) as nat),
{
    broadcast use lemma_be_bytes_len;

    lemma_pow256_uint(v);
}

} // verus!
