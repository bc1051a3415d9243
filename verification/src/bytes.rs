//! Byte-level building blocks shared by the container writers.

use vstd::prelude::*;
use vstd::utf8::encode_utf8;

verus! {

/// The `n` low-order bytes of `v`, most significant first.
pub open spec fn be_bytes(v: nat, n: nat) -> Seq<u8>
    decreases n,
{
    if n == 0 {
        Seq::empty()
    } else {
        be_bytes(v / 256, (n - 1) as nat).push((v % 256) as u8)
    }
}

/// The number that a big-endian byte string stands for.
pub open spec fn be_value(s: Seq<u8>) -> nat
    decreases s.len(),
{
    if s.len() == 0 {
        0
    } else {
        be_value(s.drop_last()) * 256 + s.last() as nat
    }
}

/// The `n` low-order bytes of `v`, least significant first.
pub open spec fn le_bytes(v: nat, n: nat) -> Seq<u8>
    decreases n,
{
    if n == 0 {
        Seq::empty()
    } else {
        seq![(v % 256) as u8] + le_bytes(v / 256, (n - 1) as nat)
    }
}

/// 256 to the power `n`: the count of values that `n` bytes can hold.
pub open spec fn pow256(n: nat) -> nat
    decreases n,
{
    if n == 0 {
        1
    } else {
        256 * pow256((n - 1) as nat)
    }
}

/// `n` zero bytes.
pub open spec fn zeros(n: nat) -> Seq<u8> {
    Seq::new(n, |i: int| 0u8)
}

/// The UTF-8 bytes of a text.
pub open spec fn text(s: Seq<char>) -> Seq<u8> {
    encode_utf8(s)
}

/// A size as it fits a 32-bit field: larger sizes wrap.
pub open spec fn wrap32(n: int) -> nat {
    (n % 0x1_0000_0000) as nat
}

/// Two bytes, most significant first.
pub open spec fn be16(v: int) -> Seq<u8> {
    be_bytes((v % 0x1_0000) as nat, 2)
}

/// Four bytes, most significant first.
pub open spec fn be32(v: int) -> Seq<u8> {
    be_bytes((v % 0x1_0000_0000) as nat, 4)
}

/// The concatenation of all byte strings in `parts`, in order.
pub open spec fn concat(parts: Seq<Seq<u8>>) -> Seq<u8>
    decreases parts.len(),
{
    if parts.len() == 0 {
        Seq::empty()
    } else {
        concat(parts.drop_last()) + parts.last()
    }
}

/// The contents of each vector in `v`.
pub open spec fn views(v: Seq<Vec<u8>>) -> Seq<Seq<u8>> {
    v.map_values(|x: Vec<u8>| x@)
}

/// Each number of `s` in four bytes, one after the other.
pub open spec fn be32_all(s: Seq<nat>) -> Seq<u8>
    decreases s.len(),
{
    if s.len() == 0 {
        Seq::empty()
    } else {
        be32_all(s.drop_last()) + be32(s.last() as int)
    }
}

/// Nothing in front of a byte string leaves it as it is.
pub broadcast proof fn lemma_empty_add(s: Seq<u8>)
    ensures
        #[trigger] (Seq::<u8>::empty() + s) == s,
{
    assert(Seq::<u8>::empty() + s =~= s);
}

/// Each number takes four bytes.
pub proof fn lemma_be32_all_len(s: Seq<nat>)
    ensures
        be32_all(s).len() == 4 * s.len(),
    decreases s.len(),
{
    broadcast use lemma_be_bytes_len;

    if s.len() > 0 {
        lemma_be32_all_len(s.drop_last());
    }
}

/// `be_bytes` always has the length that was asked for.
pub broadcast proof fn lemma_be_bytes_len(v: nat, n: nat)
    ensures
        (#[trigger] be_bytes(v, n)).len() == n,
    decreases n,
{
    if n > 0 {
        lemma_be_bytes_len(v / 256, (n - 1) as nat);
    }
}

/// Reading back `n` big-endian bytes gives the number modulo what `n` bytes can hold.
pub proof fn lemma_be_round_trip(v: nat, n: nat)
    ensures
        be_value(be_bytes(v, n)) == v % pow256(n),
        pow256(n) > 0,
    decreases n,
{
    if n > 0 {
        let m = pow256((n - 1) as nat);
        lemma_be_round_trip(v / 256, (n - 1) as nat);
        assert(be_bytes(v, n).drop_last() =~= be_bytes(v / 256, (n - 1) as nat));
        assert(v % (256 * m) == (v / 256) % m * 256 + v % 256) by {
            vstd::arithmetic::div_mod::lemma_mod_breakdown(v as int, 256, m as int);
            assert(256 * ((v / 256) % m) == (v / 256) % m * 256) by (nonlinear_arith);
        }
        assert(256 * m > 0) by (nonlinear_arith)
            requires
                m > 0,
        ;
    } else {
        assert(v % 1 == 0);
    }
}

/// `part` stands in `whole` as one piece.
pub open spec fn holds_piece(whole: Seq<u8>, part: Seq<u8>) -> bool {
    exists|k: int|
        0 <= k && k + part.len() <= whole.len() && #[trigger] whole.subrange(k, k + part.len())
            == part
}

/// What stands in a piece of a byte string stands in the byte string.
pub proof fn lemma_piece_in_middle(front: Seq<u8>, middle: Seq<u8>, back: Seq<u8>, part: Seq<u8>)
    requires
        holds_piece(middle, part),
    ensures
        holds_piece(front + middle + back, part),
        holds_piece(front + middle, part),
{
    let k = choose|k: int|
        0 <= k && k + part.len() <= middle.len() && #[trigger] middle.subrange(k, k + part.len())
            == part;
    let w = front + middle + back;
    let o = front.len() + k;
    assert(w.subrange(o, o + part.len()) =~= part) by {
        assert forall|i: int| 0 <= i < part.len() implies w.subrange(o, o + part.len())[i]
            == part[i] by {
            assert(middle.subrange(k, k + part.len())[i] == part[i]);
        }
    }
    let u = front + middle;
    assert(u.subrange(o, o + part.len()) =~= part) by {
        assert forall|i: int| 0 <= i < part.len() implies u.subrange(o, o + part.len())[i]
            == part[i] by {
            assert(middle.subrange(k, k + part.len())[i] == part[i]);
        }
    }
}

/// A byte string stands in itself.
pub proof fn lemma_piece_self(part: Seq<u8>)
    ensures
        holds_piece(part, part),
{
    assert(part.subrange(0, 0int + part.len()) =~= part);
}

/// Each byte string lies in the concatenation behind those before it.
pub proof fn lemma_concat_at(parts: Seq<Seq<u8>>, i: int)
    requires
        0 <= i < parts.len(),
    ensures
        ({
            let k = concat(parts.take(i)).len() as int;
            &&& k + parts[i].len() <= concat(parts).len()
            &&& concat(parts).subrange(k, k + parts[i].len()) == parts[i]
        }),
    decreases parts.len(),
{
    let rest = parts.drop_last();
    if i == parts.len() - 1 {
        assert(parts.take(i) =~= rest);
        let k = concat(rest).len() as int;
        assert(concat(parts).subrange(k, k + parts[i].len()) =~= parts[i]);
    } else {
        lemma_concat_at(rest, i);
        assert(rest.take(i) =~= parts.take(i));
        let k = concat(parts.take(i)).len() as int;
        assert(concat(parts).subrange(k, k + parts[i].len()) =~= concat(rest).subrange(
            k,
            k + parts[i].len(),
        ));
    }
}

/// Appends the `n` low-order bytes of `v`, most significant first.
pub fn push_be(out: &mut Vec<u8>, v: u64, n: usize)
    ensures
        final(out)@ == old(out)@ + be_bytes(v as nat, n as nat),
    decreases n,
{
    if n > 0 {
        push_be(out, v / 256, n - 1);
        let low: u8 = (v % 256) as u8;
        out.push(low);
    }
    assert(out@ =~= old(out)@ + be_bytes(v as nat, n as nat));
}

/// Appends a 16-bit number, most significant byte first.
pub fn push_u16(out: &mut Vec<u8>, v: u16)
    ensures
        final(out)@ == old(out)@ + be16(v as int),
{
    push_be(out, v as u64, 2);
}

/// Appends a 32-bit number, most significant byte first.
pub fn push_u32(out: &mut Vec<u8>, v: u32)
    ensures
        final(out)@ == old(out)@ + be32(v as int),
{
    push_be(out, v as u64, 4);
}

/// Appends the `n` low-order bytes of `v`, least significant first.
pub fn push_le(out: &mut Vec<u8>, v: u64, n: usize)
    ensures
        final(out)@ == old(out)@ + le_bytes(v as nat, n as nat),
    decreases n,
{
    if n > 0 {
        let low: u8 = (v % 256) as u8;
        out.push(low);
        push_le(out, v / 256, n - 1);
    }
    assert(out@ =~= old(out)@ + le_bytes(v as nat, n as nat));
}

/// Appends `n` zero bytes.
pub fn push_zeros(out: &mut Vec<u8>, n: usize)
    ensures
        final(out)@ == old(out)@ + zeros(n as nat),
    decreases n,
{
    if n > 0 {
        push_zeros(out, n - 1);
        out.push(0);
    }
    assert(out@ =~= old(out)@ + zeros(n as nat));
}

/// Appends all bytes of `data`.
pub fn push_all(out: &mut Vec<u8>, data: &[u8])
    ensures
        final(out)@ == old(out)@ + data@,
{
    out.extend_from_slice(data);
    assert(out@ =~= old(out)@ + data@);
}

/// Appends the UTF-8 bytes of `s`.
pub fn push_text(out: &mut Vec<u8>, s: &str)
    ensures
        final(out)@ == old(out)@ + text(s@),
{
    push_all(out, s.as_bytes());
}

/// The 16 low-order bits of a number.
pub fn low16(n: u32) -> (r: u16)
    ensures
        r as int == n % 0x1_0000,
{
    (n % 0x1_0000) as u16
}

/// A number moved up by 16 bits; what no longer fits is dropped.
pub fn shl16(n: u32) -> (r: u32)
    ensures
        r as int == (n * 0x1_0000) % 0x1_0000_0000,
{
    ((n as u64 * 0x1_0000) % 0x1_0000_0000) as u32
}

/// The 32 low-order bits of a size.
pub fn low32(n: usize) -> (r: u32)
    ensures
        r as nat == wrap32(n as int),
{
    let wide: u64 = n as u64;
    let r: u32 = (wide % 0x1_0000_0000) as u32;
    r
}

} // verus!
