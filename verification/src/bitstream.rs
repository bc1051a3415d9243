//! Coded video: NAL units of H.264 and HEVC, OBUs of AV1, and decoder configurations.

use vstd::prelude::*;
use crate::bytes::{be16, be32, low32, push_all, push_u16, push_u32, views};

verus! {

// ---------------------------------------------------------------- NAL units

/// A NAL unit without the start code in front of it.
pub open spec fn unstarted(n: Seq<u8>) -> Seq<u8> {
    if n.len() >= 4 && n[0] == 0 && n[1] == 0 && n[2] == 0 && n[3] == 1 {
        n.subrange(4, n.len() as int)
    } else if n.len() >= 3 && n[0] == 0 && n[1] == 0 && n[2] == 1 {
        n.subrange(3, n.len() as int)
    } else {
        n
    }
}

fn copy_from(v: &[u8], at: usize, end: usize) -> (r: Vec<u8>)
    requires
        at <= end <= v@.len(),
    ensures
        r@ == v@.subrange(at as int, end as int),
{
    let mut r: Vec<u8> = Vec::new();
    push_all(&mut r, vstd::slice::slice_subrange(v, at, end));
    assert(r@ =~= v@.subrange(at as int, end as int));
    r
}

/// A copy of some bytes.
pub fn copy_of(v: &Vec<u8>) -> (r: Vec<u8>)
    ensures
        r@ == v@,
{
    let r = copy_from(v.as_slice(), 0, v.len());
    assert(v@.subrange(0, v@.len() as int) =~= v@);
    r
}

/// A NAL unit without the start code in front of it.
pub fn nal_payload(n: &[u8]) -> (r: Vec<u8>)
    ensures
        r@ == unstarted(n@),
{
    let len: usize = n.len();
    if len >= 4 && n[0] == 0 && n[1] == 0 && n[2] == 0 && n[3] == 1 {
        copy_from(n, 4, len)
    } else if len >= 3 && n[0] == 0 && n[1] == 0 && n[2] == 1 {
        copy_from(n, 3, len)
    } else {
        let r = copy_from(n, 0, len);
        assert(n@.subrange(0, n@.len() as int) =~= n@);
        r
    }
}

/// The type of an H.264 unit; 0 for an empty one.
pub open spec fn avc_type(n: Seq<u8>) -> int {
    if n.len() == 0 {
        0
    } else {
        n[0] as int % 32
    }
}

/// The type of an H.264 unit; 0 for an empty one.
pub fn avc_type_of(n: &Vec<u8>) -> (r: u8)
    ensures
        r == avc_type(n@),
{
    if n.len() == 0 {
        0
    } else {
        n[0] % 32
    }
}

/// The type of an HEVC unit; 0 for an empty one.
pub open spec fn hevc_type(n: Seq<u8>) -> int {
    if n.len() == 0 {
        0
    } else {
        n[0] as int / 2 % 64
    }
}

fn hevc_type_of(n: &Vec<u8>) -> (r: u8)
    ensures
        r == hevc_type(n@),
{
    if n.len() == 0 {
        0
    } else {
        n[0] / 2 % 64
    }
}

/// A unit with its length in front of it.
pub open spec fn prefixed(n: Seq<u8>) -> Seq<u8> {
    be32(n.len() as int) + n
}

/// Units one after the other, each with its length in front of it.
pub open spec fn packed(s: Seq<Seq<u8>>) -> Seq<u8>
    decreases s.len(),
{
    if s.len() == 0 {
        Seq::empty()
    } else {
        packed(s.drop_last()) + prefixed(s.last())
    }
}

/// Appends a unit with its length in front of it.
pub fn push_prefixed(out: &mut Vec<u8>, n: &Vec<u8>)
    ensures
        final(out)@ == old(out)@ + prefixed(n@),
{
    let len: usize = n.len();
    push_be_len(out, len);
    push_all(out, n.as_slice());
    assert(out@ =~= old(out)@ + prefixed(n@));
}

fn push_be_len(out: &mut Vec<u8>, len: usize)
    ensures
        final(out)@ == old(out)@ + be32(len as int),
{
    push_u32(out, low32(len));
}

/// Puts units one after the other, each with its length in front of it.
pub fn annexb_to_length_prefixed(v: &Vec<Vec<u8>>) -> (r: Vec<u8>)
    ensures
        r@ == packed(views(v@)),
{
    let ghost s = views(v@);
    let mut r: Vec<u8> = Vec::new();
    let mut i: usize = 0;
    assert(s.take(0) =~= Seq::<Seq<u8>>::empty());
    while i < v.len()
        invariant
            i <= v@.len(),
            s == views(v@),
            r@ == packed(s.take(i as int)),
        decreases v.len() - i,
    {
        assert(s.take(i + 1).drop_last() =~= s.take(i as int));
        assert(s[i as int] == v@[i as int]@);
        push_prefixed(&mut r, &v[i]);
        i += 1;
    }
    assert(s.take(s.len() as int) =~= s);
    r
}

// ---------------------------------------------------------------- Annex B

/// Whether the short start code stands at place `i`.
pub open spec fn short_code(d: Seq<u8>, i: int) -> bool {
    i + 3 <= d.len() && d[i] == 0 && d[i + 1] == 0 && d[i + 2] == 1
}

/// Whether the long start code stands at place `i`.
pub open spec fn long_code(d: Seq<u8>, i: int) -> bool {
    i + 4 <= d.len() && d[i] == 0 && d[i + 1] == 0 && d[i + 2] == 0 && d[i + 3] == 1
}

/// The place of the first start code from place `j` on, or the end.
pub open spec fn next_code(d: Seq<u8>, j: int) -> int
    decreases d.len() - j,
{
    if j >= d.len() || short_code(d, j) || long_code(d, j) {
        j
    } else {
        next_code(d, j + 1)
    }
}

/// Looking for a start code never goes back.
pub proof fn lemma_next_code(d: Seq<u8>, j: int)
    ensures
        j <= next_code(d, j),
        j <= d.len() ==> next_code(d, j) <= d.len(),
        forall|k: int|
            j <= k < next_code(d, j) ==> !(#[trigger] short_code(d, k)) && !long_code(d, k),
    decreases d.len() - j,
{
    if j < d.len() && !short_code(d, j) && !long_code(d, j) {
        lemma_next_code(d, j + 1);
    }
}

/// The units of a byte stream from place `i` on, without their start codes.
pub open spec fn units(d: Seq<u8>, i: int) -> Seq<Seq<u8>>
    decreases d.len() - i,
{
    if i >= d.len() {
        Seq::empty()
    } else if long_code(d, i) || short_code(d, i) {
        let start = if long_code(d, i) {
            i + 4
        } else {
            i + 3
        };
        let end = next_code(d, start);
        proof {
            lemma_next_code(d, start);
        }
        if end > start {
            seq![d.subrange(start, end)] + units(d, end)
        } else {
            units(d, end)
        }
    } else {
        units(d, i + 1)
    }
}

fn is_short_code(d: &[u8], i: usize) -> (r: bool)
    requires
        i <= d@.len(),
    ensures
        r == short_code(d@, i as int),
{
    d.len() - i >= 3 && d[i] == 0 && d[i + 1] == 0 && d[i + 2] == 1
}

fn is_long_code(d: &[u8], i: usize) -> (r: bool)
    requires
        i <= d@.len(),
    ensures
        r == long_code(d@, i as int),
{
    d.len() - i >= 4 && d[i] == 0 && d[i + 1] == 0 && d[i + 2] == 0 && d[i + 3] == 1
}

fn find_next_code(d: &[u8], from: usize) -> (r: usize)
    requires
        from <= d@.len(),
    ensures
        r as int == next_code(d@, from as int),
        from <= r <= d@.len(),
{
    let total: usize = d.len();
    let mut j: usize = from;
    while j < total && !is_short_code(d, j) && !is_long_code(d, j)
        invariant
            from <= j <= total == d@.len(),
            next_code(d@, from as int) == next_code(d@, j as int),
        decreases total - j,
    {
        j += 1;
    }
    j
}

/// Splits a byte stream into its units, without their start codes.
pub fn split_annexb(d: &[u8]) -> (r: Vec<Vec<u8>>)
    ensures
        views(r@) == units(d@, 0),
{
    let total: usize = d.len();
    let mut r: Vec<Vec<u8>> = Vec::new();
    let mut i: usize = 0;
    assert(views(r@) + units(d@, 0) =~= units(d@, 0));
    while i < total
        invariant
            i <= total == d@.len(),
            views(r@) + units(d@, i as int) == units(d@, 0),
        decreases total - i,
    {
        let long = is_long_code(d, i);
        if long || is_short_code(d, i) {
            let start: usize = if long {
                i + 4
            } else {
                i + 3
            };
            let end: usize = find_next_code(d, start);
            if end > start {
                let unit = copy_from(d, start, end);
                let ghost before = views(r@);
                r.push(unit);
                proof {
                    assert(views(r@) =~= before.push(unit@));
                    assert(before.push(unit@) + units(d@, end as int) =~= before + (seq![unit@]
                        + units(d@, end as int)));
                }
            }
            i = end;
        } else {
            i += 1;
        }
    }
    assert(views(r@) + Seq::<Seq<u8>>::empty() =~= views(r@));
    r
}

/// A byte stream of units, each behind a long start code.
pub open spec fn annexb(s: Seq<Seq<u8>>) -> Seq<u8>
    decreases s.len(),
{
    if s.len() == 0 {
        Seq::empty()
    } else {
        seq![0u8, 0u8, 0u8, 1u8] + s[0] + annexb(s.skip(1))
    }
}

/// Whether a unit can stand in a byte stream: it is not empty, holds no start code and does not
/// end in a zero.
pub open spec fn is_unit(u: Seq<u8>) -> bool {
    u.len() > 0 && u.last() != 0 && forall|p: int| 0 <= p < u.len() ==> !(#[trigger] short_code(u, p))
}

proof fn lemma_code_after(d: Seq<u8>, start: int, end: int)
    requires
        0 <= start < end <= d.len(),
        d[end - 1] != 0,
        end == d.len() || long_code(d, end),
        forall|p: int| 0 <= p < end - start ==> !(#[trigger] short_code(d.subrange(start, end), p)),
    ensures
        next_code(d, start) == end,
    decreases end - start,
{
    let u = d.subrange(start, end);
    assert(!short_code(u, 0));
    if short_code(d, start) {
        assert(u[0] == d[start]);
        if start + 3 <= end {
            assert(u[1] == d[start + 1] && u[2] == d[start + 2]);
        }
    }
    if long_code(d, start) {
        if start + 4 <= end {
            assert(!short_code(u, 1));
            assert(u[1] == d[start + 1] && u[2] == d[start + 2] && u[3] == d[start + 3]);
        }
    }
    if start + 1 < end {
        let t = d.subrange(start + 1, end);
        assert forall|p: int| 0 <= p < end - start - 1 implies !(#[trigger] short_code(t, p)) by {
            assert(!short_code(u, p + 1));
            if short_code(t, p) {
                assert(t[p] == u[p + 1] && t[p + 1] == u[p + 2] && t[p + 2] == u[p + 3]);
            }
        }
        lemma_code_after(d, start + 1, end);
    } else {
        assert(next_code(d, end) == end);
    }
}

proof fn lemma_units_read_back(front: Seq<u8>, s: Seq<Seq<u8>>)
    requires
        forall|i: int| 0 <= i < s.len() ==> is_unit(#[trigger] s[i]),
    ensures
        units(front + annexb(s), front.len() as int) == s,
    decreases s.len(),
{
    let d = front + annexb(s);
    let i = front.len() as int;
    if s.len() == 0 {
        assert(s =~= Seq::empty());
    } else {
        let u = s[0];
        let rest = s.skip(1);
        let next = front + (seq![0u8, 0u8, 0u8, 1u8] + u);
        assert(d =~= next + annexb(rest));
        let start = i + 4;
        let end = next.len() as int;
        assert(is_unit(s[0]));
        assert(d.subrange(start, end) =~= u);
        assert(d[end - 1] == u.last());
        if rest.len() > 0 {
            let tail = annexb(rest);
            assert(tail[0] == 0 && tail[1] == 0 && tail[2] == 0 && tail[3] == 1);
            assert(d[end] == tail[0] && d[end + 1] == tail[1] && d[end + 2] == tail[2] && d[end + 3]
                == tail[3]);
        }
        lemma_code_after(d, start, end);
        assert(d[i] == 0 && d[i + 1] == 0 && d[i + 2] == 0 && d[i + 3] == 1);
        assert forall|k: int| 0 <= k < rest.len() implies is_unit(#[trigger] rest[k]) by {
            assert(rest[k] == s[k + 1]);
        }
        lemma_units_read_back(next, rest);
        assert(units(d, i) =~= seq![u] + rest);
        assert(seq![u] + rest =~= s);
    }
}

/// Splitting a byte stream gives back the units that it was made of, whole.
pub proof fn law_units_read_back(s: Seq<Seq<u8>>)
    requires
        forall|i: int| 0 <= i < s.len() ==> is_unit(#[trigger] s[i]),
    ensures
        units(annexb(s), 0) == s,
{
    lemma_units_read_back(Seq::empty(), s);
    assert(Seq::<u8>::empty() + annexb(s) =~= annexb(s));
}

/// No unit of a byte stream is empty, and none holds a start code.
pub proof fn law_units_hold_no_start_code(d: Seq<u8>, i: int, k: int)
    requires
        0 <= i,
        0 <= k < units(d, i).len(),
    ensures
        units(d, i)[k].len() > 0,
        forall|p: int| 0 <= p < units(d, i)[k].len() ==> !(#[trigger] short_code(units(d, i)[k], p)),
    decreases d.len() - i,
{
    if i < d.len() {
        if long_code(d, i) || short_code(d, i) {
            let start = if long_code(d, i) {
                i + 4
            } else {
                i + 3
            };
            let end = next_code(d, start);
            lemma_next_code(d, start);
            if end > start {
                let u = d.subrange(start, end);
                if k == 0 {
                    assert(units(d, i)[0] == u);
                    assert forall|p: int| 0 <= p < u.len() implies !(#[trigger] short_code(
                        u,
                        p,
                    )) by {
                        if short_code(u, p) {
                            assert(u[p] == d[start + p]);
                            assert(u[p + 1] == d[start + p + 1]);
                            assert(u[p + 2] == d[start + p + 2]);
                            assert(short_code(d, start + p));
                        }
                    }
                } else {
                    assert(units(d, i)[k] == units(d, end)[k - 1]);
                    law_units_hold_no_start_code(d, end, k - 1);
                }
            } else {
                law_units_hold_no_start_code(d, end, k);
            }
        } else {
            law_units_hold_no_start_code(d, i + 1, k);
        }
    }
}

/// The number of bytes of units that are put one after the other: four for each length, and the
/// units themselves.
pub proof fn law_packed_len(s: Seq<Seq<u8>>, n: Seq<u8>)
    ensures
        packed(s.push(n)).len() == packed(s).len() + 4 + n.len(),
        packed(s.push(n)).subrange(packed(s).len() as int + 4, packed(s.push(n)).len() as int)
            == n,
{
    assert(s.push(n).drop_last() =~= s);
    crate::bytes::lemma_be_bytes_len((n.len() as int % 0x1_0000_0000) as nat, 4);
    assert(packed(s.push(n)) == packed(s) + (be32(n.len() as int) + n));
    assert(packed(s.push(n)).subrange(packed(s).len() as int + 4, packed(s.push(n)).len() as int)
        =~= n);
}

// ---------------------------------------------------------------- decoder configurations

/// The decoder configuration of H.264.
pub open spec fn avcc(sps: Seq<u8>, pps: Seq<u8>) -> Seq<u8> {
    seq![1u8, sps[1], sps[2], sps[3], 0xffu8, 0xe1u8] + be16(sps.len() as int) + sps + seq![1u8]
        + be16(pps.len() as int) + pps
}

fn push_len16(out: &mut Vec<u8>, len: usize)
    ensures
        final(out)@ == old(out)@ + be16(len as int),
{
    let wide: u64 = len as u64;
    push_u16(out, (wide % 0x1_0000) as u16);
}

/// Builds the decoder configuration of H.264 from the parameter sets.
pub fn build_avcc(sps: &Vec<u8>, pps: &Vec<u8>) -> (r: Vec<u8>)
    requires
        sps@.len() >= 4,
    ensures
        r@ == avcc(sps@, pps@),
{
    let mut r: Vec<u8> = vec![1, sps[1], sps[2], sps[3], 0xff, 0xe1];
    assert(r@ =~= seq![1u8, sps@[1], sps@[2], sps@[3], 0xffu8, 0xe1u8]);
    push_len16(&mut r, sps.len());
    push_all(&mut r, sps.as_slice());
    let ghost before = r@;
    r.push(1);
    assert(r@ =~= before + seq![1u8]);
    push_len16(&mut r, pps.len());
    push_all(&mut r, pps.as_slice());
    r
}

/// The byte at place `k`, or 0.
pub open spec fn byte_at(s: Seq<u8>, k: int) -> u8 {
    if 0 <= k < s.len() {
        s[k]
    } else {
        0
    }
}

/// One array of parameter sets in a decoder configuration of HEVC.
pub open spec fn hvcc_array(kind: u8, n: Seq<u8>) -> Seq<u8> {
    seq![kind] + be16(1) + be16(n.len() as int) + n
}

/// The fixed part of a decoder configuration of HEVC.
pub open spec fn hvcc_head(sps: Seq<u8>) -> Seq<u8> {
    seq![
        1u8,
        byte_at(sps, 2),
        0xffu8,
        0xffu8,
        0xffu8,
        0xffu8,
        0u8,
        0u8,
        0u8,
        0u8,
        0u8,
        byte_at(sps, 8),
        0u8,
        0u8,
        0u8,
        0u8,
        0u8,
        0u8,
        0u8,
        0u8,
        0x0fu8,
        3u8,
    ]
}

/// The decoder configuration of HEVC.
pub open spec fn hvcc(vps: Seq<u8>, sps: Seq<u8>, pps: Seq<u8>) -> Seq<u8> {
    hvcc_head(sps) + hvcc_array(0x20, vps) + hvcc_array(0x21, sps) + hvcc_array(0x22, pps)
}

fn push_hvcc_array(out: &mut Vec<u8>, kind: u8, n: &Vec<u8>)
    ensures
        final(out)@ == old(out)@ + hvcc_array(kind, n@),
{
    out.push(kind);
    push_u16(out, 1);
    push_len16(out, n.len());
    push_all(out, n.as_slice());
    assert(out@ =~= old(out)@ + hvcc_array(kind, n@));
}

fn read_byte(v: &Vec<u8>, k: usize) -> (r: u8)
    ensures
        r == byte_at(v@, k as int),
{
    if k < v.len() {
        v[k]
    } else {
        0
    }
}

/// Builds the decoder configuration of HEVC from the parameter sets.
pub fn build_hvcc(vps: &Vec<u8>, sps: &Vec<u8>, pps: &Vec<u8>) -> (r: Vec<u8>)
    ensures
        r@ == hvcc(vps@, sps@, pps@),
{
    let profile: u8 = read_byte(sps, 2);
    let level: u8 = read_byte(sps, 8);
    let mut r: Vec<u8> = vec![
        1, profile, 0xff, 0xff, 0xff, 0xff, 0, 0, 0, 0, 0, level, 0, 0, 0, 0, 0, 0, 0, 0, 0x0f, 3,
    ];
    assert(r@ =~= hvcc_head(sps@));
    push_hvcc_array(&mut r, 0x20, vps);
    push_hvcc_array(&mut r, 0x21, sps);
    push_hvcc_array(&mut r, 0x22, pps);
    r
}

/// The decoder configuration of AV1: profile and level as they stand in the sequence header, the
/// tier, and 8 bits with halved chroma.
pub open spec fn av1c(header: Seq<u8>) -> Seq<u8> {
    seq![0x81u8, header[0], (byte_at(header, 1) as int % 2 * 128 + 12) as u8, 0u8]
}

/// Builds the decoder configuration of AV1 from a sequence header.
pub fn build_av1c(header: &Vec<u8>) -> (r: Vec<u8>)
    requires
        header@.len() > 0,
    ensures
        r@ == av1c(header@),
{
    let tier: u8 = read_byte(header, 1) % 2;
    let r: Vec<u8> = vec![0x81, header[0], tier * 128 + 12, 0];
    assert(r@ =~= av1c(header@));
    r
}

// ---------------------------------------------------------------- coded frames of H.264 and HEVC

/// The last unit of the given type.
pub open spec fn last_avc(s: Seq<Seq<u8>>, t: int) -> Option<Seq<u8>>
    decreases s.len(),
{
    if s.len() == 0 {
        None
    } else if avc_type(s.last()) == t {
        Some(s.last())
    } else {
        last_avc(s.drop_last(), t)
    }
}

/// The last unit of the given type.
pub open spec fn last_hevc(s: Seq<Seq<u8>>, t: int) -> Option<Seq<u8>>
    decreases s.len(),
{
    if s.len() == 0 {
        None
    } else if hevc_type(s.last()) == t {
        Some(s.last())
    } else {
        last_hevc(s.drop_last(), t)
    }
}

/// Finds the place of the last unit of the given type.
pub fn find_last_avc(v: &Vec<Vec<u8>>, t: u8) -> (r: Option<usize>)
    ensures
        match r {
            Some(i) => i < v@.len() && last_avc(views(v@), t as int) == Some(v@[i as int]@),
            None => last_avc(views(v@), t as int) is None,
        },
{
    let ghost s = views(v@);
    let mut i: usize = v.len();
    assert(s.take(s.len() as int) =~= s);
    while i > 0
        invariant
            i <= v@.len(),
            s == views(v@),
            last_avc(s, t as int) == last_avc(s.take(i as int), t as int),
        decreases i,
    {
        assert(s.take(i as int).drop_last() =~= s.take(i - 1));
        assert(s[i - 1] == v@[i - 1]@);
        if avc_type_of(&v[i - 1]) == t {
            return Some(i - 1);
        }
        i -= 1;
    }
    None
}

fn find_last_hevc(v: &Vec<Vec<u8>>, t: u8) -> (r: Option<usize>)
    ensures
        match r {
            Some(i) => i < v@.len() && last_hevc(views(v@), t as int) == Some(v@[i as int]@),
            None => last_hevc(views(v@), t as int) is None,
        },
{
    let ghost s = views(v@);
    let mut i: usize = v.len();
    assert(s.take(s.len() as int) =~= s);
    while i > 0
        invariant
            i <= v@.len(),
            s == views(v@),
            last_hevc(s, t as int) == last_hevc(s.take(i as int), t as int),
        decreases i,
    {
        assert(s.take(i as int).drop_last() =~= s.take(i - 1));
        assert(s[i - 1] == v@[i - 1]@);
        if hevc_type_of(&v[i - 1]) == t {
            return Some(i - 1);
        }
        i -= 1;
    }
    None
}

/// The value of an optional buffer.
pub open spec fn opt_bytes(v: Option<Vec<u8>>) -> Option<Seq<u8>> {
    match v {
        Some(v) => Some(v@),
        None => None,
    }
}

/// The decoder configuration that the units of a coded frame of H.264 give.
pub open spec fn avc_private(s: Seq<Seq<u8>>) -> Option<Seq<u8>> {
    match (last_avc(s, 7), last_avc(s, 8)) {
        (Some(sps), Some(pps)) => Some(avcc(sps, pps)),
        _ => None,
    }
}

/// The decoder configuration that the units of a coded frame of HEVC give.
pub open spec fn hevc_private(s: Seq<Seq<u8>>) -> Option<Seq<u8>> {
    match (last_hevc(s, 32), last_hevc(s, 33), last_hevc(s, 34)) {
        (Some(vps), Some(sps), Some(pps)) => Some(hvcc(vps, sps, pps)),
        _ => None,
    }
}

/// The configuration so far, or the one of the first frame.
pub open spec fn private_after(
    before: Seq<u8>,
    first: bool,
    found: Option<Seq<u8>>,
) -> Seq<u8> {
    if first && found is Some {
        found->0
    } else {
        before
    }
}

/// Turns a coded frame of H.264 into a sample: its units, each with its length in front of it.
/// The first frame gives the decoder configuration.
pub fn process_h264(raw: &[u8], private: &mut Vec<u8>, first: bool) -> (r: Vec<u8>)
    requires
        first ==> (last_avc(units(raw@, 0), 7) matches Some(sps) ==> sps.len() >= 4),
    ensures
        r@ == packed(units(raw@, 0)),
        final(private)@ == private_after(old(private)@, first, avc_private(units(raw@, 0))),
{
    let nals = split_annexb(raw);
    if first {
        match (find_last_avc(&nals, 7), find_last_avc(&nals, 8)) {
            (Some(s), Some(p)) => {
                *private = build_avcc(&nals[s], &nals[p]);
            },
            _ => {},
        }
    }
    annexb_to_length_prefixed(&nals)
}

/// Turns a coded frame of HEVC into a sample: its units, each with its length in front of it.
/// The first frame gives the decoder configuration.
pub fn process_hevc(raw: &[u8], private: &mut Vec<u8>, first: bool) -> (r: Vec<u8>)
    ensures
        r@ == packed(units(raw@, 0)),
        final(private)@ == private_after(old(private)@, first, hevc_private(units(raw@, 0))),
{
    let nals = split_annexb(raw);
    if first {
        match (find_last_hevc(&nals, 32), find_last_hevc(&nals, 33), find_last_hevc(&nals, 34)) {
            (Some(v), Some(s), Some(p)) => {
                *private = build_hvcc(&nals[v], &nals[s], &nals[p]);
            },
            _ => {},
        }
    }
    annexb_to_length_prefixed(&nals)
}

// ---------------------------------------------------------------- numbers in AV1

/// What the byte number `k` of a number in LEB128 stands for. The tenth byte has room for one
/// more bit only.
pub open spec fn leb_part(k: int, b: u8) -> nat
    decreases k,
{
    if k <= 0 {
        (b % 128) as nat
    } else if k < 9 {
        128 * leb_part(k - 1, b)
    } else {
        b as nat % 2 * 0x8000_0000_0000_0000
    }
}

/// The number that starts at place `i` in LEB128, of which `k` bytes that make up `value` were
/// read: the number and how many bytes it takes. `None` where it takes more than ten.
pub open spec fn leb_from(d: Seq<u8>, i: int, k: int, value: nat) -> Option<(nat, int)>
    decreases d.len() - i,
{
    if i >= d.len() {
        Some((value, k))
    } else if k >= 10 {
        None
    } else if d[i] < 128 {
        Some((value + leb_part(k, d[i]), k + 1))
    } else {
        leb_from(d, i + 1, k + 1, value + leb_part(k, d[i]))
    }
}

/// The number that starts at place `i` in LEB128, and how many bytes it takes.
pub open spec fn leb_at(d: Seq<u8>, i: int) -> Option<(nat, int)> {
    leb_from(d, i, 0, 0)
}

/// The largest number that fits into the first `k` bytes.
spec fn leb_room(k: int) -> nat
    decreases k,
{
    if k <= 0 {
        1
    } else if k < 10 {
        128 * leb_room(k - 1)
    } else {
        0x1_0000_0000_0000_0000
    }
}

proof fn lemma_leb_part(k: int, b: u8)
    requires
        0 <= k < 10,
    ensures
        leb_part(k, b) + leb_room(k) <= leb_room(k + 1),
        leb_room(k + 1) <= 0x1_0000_0000_0000_0000,
    decreases k,
{
    reveal_with_fuel(leb_room, 12);
    if 0 < k < 9 {
        lemma_leb_part(k - 1, b);
    }
}

fn find_leb_part(k: usize, b: u8) -> (r: u64)
    requires
        k < 10,
    ensures
        r == leb_part(k as int, b),
    decreases k,
{
    proof {
        lemma_leb_part(k as int, b);
    }
    if k == 0 {
        (b % 128) as u64
    } else if k < 9 {
        proof {
            lemma_leb_part(k - 1, b);
        }
        128 * find_leb_part(k - 1, b)
    } else {
        b as u64 % 2 * 0x8000_0000_0000_0000
    }
}

/// Reads the number that starts at place `at` in LEB128.
pub fn read_leb128(d: &[u8], at: usize) -> (r: Option<(u64, usize)>)
    ensures
        match r {
            Some((v, n)) => leb_at(d@, at as int) == Some((v as nat, n as int)) && n <= 10 && (at
                <= d@.len() ==> at + n <= d@.len()) && (at > d@.len() ==> n == 0),
            None => leb_at(d@, at as int) is None,
        },
{
    let total: usize = d.len();
    let mut i: usize = at;
    let mut k: usize = 0;
    let mut value: u64 = 0;
    while i < total
        invariant
            total == d@.len(),
            at <= d@.len() ==> i <= total,
            at > d@.len() ==> i == at,
            k <= 10,
            i == at + k,
            value < leb_room(k as int),
            leb_room(k as int) <= 0x1_0000_0000_0000_0000,
            leb_at(d@, at as int) == leb_from(d@, i as int, k as int, value as nat),
        decreases total - i,
    {
        if k >= 10 {
            return None;
        }
        let b: u8 = d[i];
        proof {
            lemma_leb_part(k as int, b);
        }
        value = value + find_leb_part(k, b);
        k += 1;
        i += 1;
        if b < 128 {
            return Some((value, k));
        }
    }
    Some((value, k))
}

/// A number in LEB128.
pub open spec fn leb_bytes(n: nat) -> Seq<u8>
    decreases n,
{
    if n < 128 {
        seq![n as u8]
    } else {
        seq![(n % 128 + 128) as u8] + leb_bytes(n / 128)
    }
}

/// Appends a number in LEB128.
pub fn push_leb128(out: &mut Vec<u8>, n: u64)
    ensures
        final(out)@ == old(out)@ + leb_bytes(n as nat),
    decreases n,
{
    if n < 128 {
        out.push(n as u8);
    } else {
        let low: u8 = (n % 128 + 128) as u8;
        out.push(low);
        push_leb128(out, n / 128);
    }
    assert(out@ =~= old(out)@ + leb_bytes(n as nat));
}

/// 128 to the power `k`.
spec fn pow128(k: int) -> nat
    decreases k,
{
    if k <= 0 {
        1
    } else {
        128 * pow128(k - 1)
    }
}

proof fn lemma_part_pow(k: int, b: u8)
    requires
        0 <= k < 9,
    ensures
        leb_part(k, b) == (b % 128) as nat * pow128(k),
    decreases k,
{
    if k > 0 {
        lemma_part_pow(k - 1, b);
        let x = (b % 128) as nat;
        let p = pow128(k - 1);
        assert(128 * (x * p) == x * (128 * p)) by (nonlinear_arith);
    } else {
        assert((b % 128) as nat * 1 == (b % 128) as nat) by (nonlinear_arith);
    }
}

proof fn lemma_leb_from(d: Seq<u8>, i: int, k: int, value: nat, n: nat)
    requires
        0 <= i,
        0 <= k <= 9,
        n * pow128(k) <= u64::MAX,
        i + leb_bytes(n).len() <= d.len(),
        d.subrange(i, i + leb_bytes(n).len()) == leb_bytes(n),
    ensures
        leb_from(d, i, k, value) == Some((value + n * pow128(k), k + leb_bytes(n).len())),
    decreases n,
{
    let s = leb_bytes(n);
    let p = pow128(k);
    assert(d[i] == s[0]) by {
        assert(d.subrange(i, i + s.len())[0] == s[0]);
    }
    if k == 9 {
        assert(p == 0x8000_0000_0000_0000) by {
            reveal_with_fuel(pow128, 10);
        }
        assert(n < 2) by (nonlinear_arith)
            requires
                n * p <= u64::MAX,
                p == 0x8000_0000_0000_0000,
        ;
        assert(leb_part(9, d[i]) == n * p);
    } else {
        lemma_part_pow(k, d[i]);
        if n >= 128 {
            let rest = leb_bytes(n / 128);
            let low = (n % 128) as nat;
            let q = n / 128;
            assert(s[0] % 128 == low);
            assert(low + 128 * q == n);
            assert(low * p + q * (128 * p) == (low + 128 * q) * p) by (nonlinear_arith);
            assert(0 <= low * p) by (nonlinear_arith)
                requires
                    0 <= low,
                    0 <= p,
            ;
            assert(d.subrange(i + 1, i + 1 + rest.len()) =~= rest) by {
                assert forall|j: int| 0 <= j < rest.len() implies d[i + 1 + j] == rest[j] by {
                    assert(d.subrange(i, i + s.len())[j + 1] == s[j + 1]);
                }
            }
            lemma_leb_from(d, i + 1, k + 1, value + leb_part(k, d[i]), q);
        }
    }
}

/// Reading a number in LEB128 gives back what was written, whatever stands around it.
pub proof fn law_leb_round_trip(front: Seq<u8>, n: nat, back: Seq<u8>)
    requires
        n <= u64::MAX,
    ensures
        leb_at(front + leb_bytes(n) + back, front.len() as int) == Some(
            (n, leb_bytes(n).len() as int),
        ),
{
    let d = front + leb_bytes(n) + back;
    let i = front.len() as int;
    assert(d.subrange(i, i + leb_bytes(n).len()) =~= leb_bytes(n));
    assert(n * pow128(0) == n) by (nonlinear_arith)
        requires
            pow128(0) == 1,
    ;
    lemma_leb_from(d, i, 0, 0, n);
}

// ---------------------------------------------------------------- OBUs

/// Where something of `size` bytes from `at` on ends, at most at the end of the data.
pub open spec fn end_within(d: Seq<u8>, at: int, size: nat) -> int {
    if at + size <= d.len() {
        at + size
    } else {
        d.len() as int
    }
}

fn find_end(total: usize, at: usize, size: u64) -> (r: usize)
    ensures
        r as int == (if at + size <= total {
            at + size
        } else {
            total as int
        }),
{
    if at <= total && size <= (total - at) as u64 {
        at + size as usize
    } else {
        total
    }
}

/// An OBU: its type and its payload.
#[derive(Debug)]
pub struct Obu {
    pub kind: u8,
    pub payload: Vec<u8>,
}

/// The value of an [`Obu`].
pub struct ObuView {
    pub kind: u8,
    pub payload: Seq<u8>,
}

impl View for Obu {
    type V = ObuView;

    open spec fn view(&self) -> ObuView {
        ObuView { kind: self.kind, payload: self.payload@ }
    }
}

/// The values of a list of OBUs.
pub open spec fn obu_views(v: Seq<Obu>) -> Seq<ObuView> {
    v.map_values(|o: Obu| o@)
}

/// The payload of the OBU whose header stands in front of place `i`: where it starts and how
/// many bytes it is said to have. A temporal delimiter without a size is empty, any other OBU
/// without a size goes on to the end. `None` where the size cannot be read.
pub open spec fn obu_extent(d: Seq<u8>, i: int, header: u8) -> Option<(int, nat)> {
    if header / 2 % 2 == 1 {
        match leb_at(d, i) {
            Some((size, n)) => Some((i + n, size)),
            None => None,
        }
    } else if header / 8 % 16 == 2 {
        Some((i, 0))
    } else {
        Some((i, (d.len() - i) as nat))
    }
}

/// The OBUs from place `i` on.
pub open spec fn obus(d: Seq<u8>, i: int) -> Seq<ObuView>
    decreases d.len() - i,
{
    if i < 0 || i >= d.len() {
        Seq::empty()
    } else {
        match obu_extent(d, i + 1, d[i]) {
            None => Seq::empty(),
            Some((at, size)) => {
                let end = end_within(d, at, size);
                if end <= i {
                    Seq::empty()
                } else {
                    seq![
                        ObuView {
                            kind: (d[i] / 8 % 16) as u8,
                            payload: d.subrange(at, end),
                        },
                    ] + obus(d, end)
                }
            },
        }
    }
}

/// Takes coded AV1 apart into its OBUs.
pub fn parse_av1_obus(d: &[u8]) -> (r: Vec<Obu>)
    ensures
        obu_views(r@) == obus(d@, 0),
{
    let total: usize = d.len();
    let mut r: Vec<Obu> = Vec::new();
    let mut i: usize = 0;
    assert(obu_views(r@) + obus(d@, 0) =~= obus(d@, 0));
    while i < total
        invariant
            i <= total == d@.len(),
            obu_views(r@) + obus(d@, i as int) == obus(d@, 0),
        decreases total - i,
    {
        let header: u8 = d[i];
        let kind: u8 = header / 8 % 16;
        let mut at: usize = i + 1;
        let mut size: u64 = 0;
        if header / 2 % 2 == 1 {
            match read_leb128(d, i + 1) {
                None => {
                    assert(obu_views(r@) + Seq::<ObuView>::empty() =~= obu_views(r@));
                    return r;
                },
                Some((v, n)) => {
                    at = i + 1 + n;
                    size = v;
                },
            }
        } else if kind != 2 {
            size = (total - at) as u64;
        }
        assert(obu_extent(d@, i + 1, header) == Some((at as int, size as nat)));
        let end: usize = find_end(total, at, size);
        let o = Obu { kind, payload: copy_from(d, at, end) };
        let ghost before = obu_views(r@);
        r.push(o);
        proof {
            assert(obu_views(r@) =~= before.push(o@));
            assert(obus(d@, i as int) == seq![o@] + obus(d@, end as int));
            assert(before.push(o@) + obus(d@, end as int) =~= before + (seq![o@] + obus(
                d@,
                end as int,
            )));
        }
        i = end;
    }
    assert(obu_views(r@) + Seq::<ObuView>::empty() =~= obu_views(r@));
    r
}

/// An OBU with its size.
pub open spec fn obu_bytes(o: ObuView) -> Seq<u8> {
    seq![(o.kind * 8 + 2) as u8] + leb_bytes(o.payload.len()) + o.payload
}

/// OBUs one after the other, each with its size, without temporal delimiters.
pub open spec fn sample_bytes(s: Seq<ObuView>) -> Seq<u8>
    decreases s.len(),
{
    if s.len() == 0 {
        Seq::empty()
    } else if s.last().kind == 2 {
        sample_bytes(s.drop_last())
    } else {
        sample_bytes(s.drop_last()) + obu_bytes(s.last())
    }
}

/// The payload of the last sequence header.
pub open spec fn sequence_header(s: Seq<ObuView>) -> Option<Seq<u8>>
    decreases s.len(),
{
    if s.len() == 0 {
        None
    } else if s.last().kind == 1 {
        Some(s.last().payload)
    } else {
        sequence_header(s.drop_last())
    }
}

/// The decoder configuration that the OBUs of a coded frame give.
pub open spec fn av1_private(s: Seq<ObuView>) -> Option<Seq<u8>> {
    match sequence_header(s) {
        Some(h) => if h.len() > 0 {
            Some(av1c(h))
        } else {
            None
        },
        None => None,
    }
}

proof fn lemma_leb_inside(d: Seq<u8>, i: int, k: int, value: nat)
    requires
        0 <= i <= d.len(),
    ensures
        leb_from(d, i, k, value) matches Some((_, n)) ==> k <= n <= k + d.len() - i,
    decreases d.len() - i,
{
    if i < d.len() && k < 10 && d[i] >= 128 {
        lemma_leb_inside(d, i + 1, k + 1, value + leb_part(k, d[i]));
    }
}

proof fn lemma_obu_kinds(d: Seq<u8>, i: int, k: int)
    requires
        0 <= k < obus(d, i).len(),
    ensures
        obus(d, i)[k].kind < 16,
        obus(d, i)[k].payload.len() <= d.len(),
    decreases d.len() - i,
{
    if 0 <= i < d.len() {
        let (at, size) = obu_extent(d, i + 1, d[i])->0;
        let end = end_within(d, at, size);
        lemma_leb_inside(d, i + 1, 0, 0);
        if k > 0 {
            assert(obus(d, i)[k] == obus(d, end)[k - 1]);
            lemma_obu_kinds(d, end, k - 1);
        }
    }
}

/// Turns a coded frame of AV1 into a sample: its OBUs, each with its size, without temporal
/// delimiters. The first frame gives the decoder configuration.
pub fn process_av1(raw: &[u8], private: &mut Vec<u8>, first: bool) -> (r: Vec<u8>)
    ensures
        r@ == sample_bytes(obus(raw@, 0)),
        final(private)@ == private_after(old(private)@, first, av1_private(obus(raw@, 0))),
{
    let list = parse_av1_obus(raw);
    let ghost s = obu_views(list@);
    let mut r: Vec<u8> = Vec::new();
    let mut header: Option<usize> = None;
    let mut i: usize = 0;
    assert(s.take(0) =~= Seq::<ObuView>::empty());
    while i < list.len()
        invariant
            i <= list@.len(),
            s == obu_views(list@),
            s == obus(raw@, 0),
            r@ == sample_bytes(s.take(i as int)),
            match header {
                Some(k) => k < i && sequence_header(s.take(i as int)) == Some(
                    list@[k as int].payload@,
                ),
                None => sequence_header(s.take(i as int)) is None,
            },
        decreases list.len() - i,
    {
        assert(s.take(i + 1).drop_last() =~= s.take(i as int));
        assert(s[i as int] == list@[i as int]@);
        proof {
            lemma_obu_kinds(raw@, 0, i as int);
        }
        let o = &list[i];
        if o.kind == 1 {
            header = Some(i);
        }
        if o.kind != 2 {
            let ghost before = r@;
            r.push(o.kind * 8 + 2);
            push_leb128(&mut r, o.payload.len() as u64);
            push_all(&mut r, o.payload.as_slice());
            assert(r@ =~= before + obu_bytes(o@));
        }
        i += 1;
    }
    assert(s.take(s.len() as int) =~= s);
    if first {
        if let Some(k) = header {
            if list[k].payload.len() > 0 {
                *private = build_av1c(&list[k].payload);
            }
        }
    }
    r
}

/// A sample of AV1 holds the OBUs that it was made of: taken apart again it gives them back,
/// without the temporal delimiters.
pub proof fn law_sample_holds_obus(s: Seq<ObuView>)
    requires
        forall|i: int|
            0 <= i < s.len() ==> (#[trigger] s[i]).kind < 16 && s[i].payload.len() <= u64::MAX,
    ensures
        obus(sample_bytes(s), 0) == s.filter(|o: ObuView| o.kind != 2),
    decreases s.len(),
{
    lemma_sample_then(s, Seq::empty());
    assert(sample_bytes(s) + Seq::<u8>::empty() =~= sample_bytes(s));
    assert(obus(sample_bytes(s), sample_bytes(s).len() as int) =~= Seq::<ObuView>::empty());
    let kept = s.filter(|o: ObuView| o.kind != 2);
    assert(kept + Seq::<ObuView>::empty() =~= kept);
}

/// The sample that a coded frame is turned into holds the OBUs of the frame: taken apart it gives
/// them all, each with its type and its payload, in their order, but for the temporal delimiters.
pub proof fn law_only_delimiters_dropped(raw: &[u8])
    ensures
        obus(sample_bytes(obus(raw@, 0)), 0) == obus(raw@, 0).filter(|o: ObuView| o.kind != 2),
{
    let s = obus(raw@, 0);
    assert(raw@.len() == raw.len());
    assert forall|i: int| 0 <= i < s.len() implies (#[trigger] s[i]).kind < 16
        && s[i].payload.len() <= u64::MAX by {
        lemma_obu_kinds(raw@, 0, i);
    }
    law_sample_holds_obus(s);
}

/// The OBUs of a sample with more bytes behind it: those of the sample, then those of the rest.
proof fn lemma_sample_then(s: Seq<ObuView>, tail: Seq<u8>)
    requires
        forall|i: int|
            0 <= i < s.len() ==> (#[trigger] s[i]).kind < 16 && s[i].payload.len() <= u64::MAX,
    ensures
        obus(sample_bytes(s) + tail, 0) == s.filter(|o: ObuView| o.kind != 2) + obus(
            sample_bytes(s) + tail,
            sample_bytes(s).len() as int,
        ),
    decreases s.len(),
{
    reveal(Seq::filter);
    let keep = |o: ObuView| o.kind != 2;
    if s.len() == 0 {
        assert(Seq::<ObuView>::empty() + obus(tail, 0) =~= obus(tail, 0));
        assert(sample_bytes(s) + tail =~= tail);
        assert(s.filter(keep) =~= Seq::<ObuView>::empty());
    } else {
        let t = s.drop_last();
        let o = s.last();
        assert forall|i: int| 0 <= i < t.len() implies (#[trigger] t[i]).kind < 16
            && t[i].payload.len() <= u64::MAX by {
            assert(t[i] == s[i]);
        }
        assert(s[s.len() - 1] == o);
        if o.kind == 2 {
            lemma_sample_then(t, tail);
        } else {
            let more = obu_bytes(o) + tail;
            lemma_sample_then(t, more);
            let d = sample_bytes(s) + tail;
            let i = sample_bytes(t).len() as int;
            assert(d =~= sample_bytes(t) + more);
            let n = o.payload.len();
            let front = sample_bytes(t) + seq![(o.kind * 8 + 2) as u8];
            let back = o.payload + tail;
            assert(d =~= front + leb_bytes(n) + back);
            law_leb_round_trip(front, n, back);
            assert(d[i] == (o.kind * 8 + 2) as u8);
            assert(front.len() == i + 1);
            let at = i + 1 + leb_bytes(n).len();
            assert(obu_extent(d, i + 1, d[i]) == Some((at, n)));
            let end = at + n;
            assert(end_within(d, at, n) == end);
            assert(d.subrange(at, end) =~= o.payload);
            assert(end == sample_bytes(s).len());
            assert(obus(d, i) == seq![o] + obus(d, end));
            assert(s.filter(keep) == t.filter(keep).push(o));
            assert(t.filter(keep) + (seq![o] + obus(d, end)) =~= t.filter(keep).push(o) + obus(
                d,
                end,
            ));
        }
    }
}

// ---------------------------------------------------------------- temporal units of the encoder

/// Where the OBU whose header stands at place `i` of a temporal unit ends: behind the size that it
/// gives, which follows its extension, or at the end. `None` where its size cannot be read.
pub open spec fn unit_end(d: Seq<u8>, i: int) -> Option<int> {
    let header = d[i];
    let j = if header / 4 % 2 == 1 {
        i + 2
    } else {
        i + 1
    };
    if header / 2 % 2 == 1 {
        match leb_at(d, j) {
            Some((size, n)) => Some(end_within(d, j + n, size)),
            None => None,
        }
    } else {
        Some(d.len() as int)
    }
}

/// The first OBU of the given type from place `i` on, with its header.
pub open spec fn first_obu(d: Seq<u8>, i: int, kind: u8) -> Option<Seq<u8>>
    decreases d.len() - i,
{
    if i < 0 || i >= d.len() {
        None
    } else {
        match unit_end(d, i) {
            None => None,
            Some(end) => if end <= i {
                None
            } else if d[i] / 8 % 16 == kind {
                Some(d.subrange(i, end))
            } else {
                first_obu(d, end, kind)
            },
        }
    }
}

/// Finds the first OBU of the given type in a temporal unit, with its header.
pub fn first_obu_of_type(d: &[u8], kind: u8) -> (r: Option<Vec<u8>>)
    ensures
        opt_bytes(r) == first_obu(d@, 0, kind),
{
    let total: usize = d.len();
    let mut i: usize = 0;
    while i < total
        invariant
            i <= total == d@.len(),
            first_obu(d@, 0, kind) == first_obu(d@, i as int, kind),
        decreases total - i,
    {
        let header: u8 = d[i];
        let end: usize;
        if header / 2 % 2 == 1 {
            if i == total - 1 && header / 4 % 2 == 1 {
                proof {
                    assert(leb_at(d@, i + 2) == Some((0nat, 0int)));
                }
                end = total;
            } else {
                let j: usize = if header / 4 % 2 == 1 {
                    i + 2
                } else {
                    i + 1
                };
                match read_leb128(d, j) {
                    None => {
                        return None;
                    },
                    Some((size, n)) => {
                        end = find_end(total, j + n, size);
                    },
                }
            }
        } else {
            end = total;
        }
        assert(unit_end(d@, i as int) == Some(end as int));
        if header / 8 % 16 == kind {
            return Some(copy_from(d, i, end));
        }
        i = end;
    }
    None
}

/// A temporal unit of OBUs that all give their size.
pub open spec fn unit_bytes(s: Seq<ObuView>) -> Seq<u8>
    decreases s.len(),
{
    if s.len() == 0 {
        Seq::empty()
    } else {
        obu_bytes(s[0]) + unit_bytes(s.skip(1))
    }
}

/// The first OBU of the given type in a list, as it stands in a temporal unit.
pub open spec fn first_of(s: Seq<ObuView>, kind: u8) -> Option<Seq<u8>>
    decreases s.len(),
{
    if s.len() == 0 {
        None
    } else if s[0].kind == kind {
        Some(obu_bytes(s[0]))
    } else {
        first_of(s.skip(1), kind)
    }
}

proof fn lemma_first_obu(front: Seq<u8>, s: Seq<ObuView>, kind: u8)
    requires
        forall|i: int|
            0 <= i < s.len() ==> (#[trigger] s[i]).kind < 16 && s[i].payload.len() <= u64::MAX,
    ensures
        first_obu(front + unit_bytes(s), front.len() as int, kind) == first_of(s, kind),
    decreases s.len(),
{
    let d = front + unit_bytes(s);
    let i = front.len() as int;
    if s.len() > 0 {
        let o = s[0];
        let rest = s.skip(1);
        let n = o.payload.len();
        let next = front + obu_bytes(o);
        assert(d =~= next + unit_bytes(rest));
        let head = front + seq![(o.kind * 8 + 2) as u8];
        let back = o.payload + unit_bytes(rest);
        assert(d =~= head + leb_bytes(n) + back);
        law_leb_round_trip(head, n, back);
        assert(d[i] == (o.kind * 8 + 2) as u8);
        let end = next.len() as int;
        assert(end == i + 1 + leb_bytes(n).len() + n);
        assert(unit_end(d, i) == Some(end));
        assert(d.subrange(i, end) =~= obu_bytes(o));
        assert forall|k: int| 0 <= k < rest.len() implies (#[trigger] rest[k]).kind < 16
            && rest[k].payload.len() <= u64::MAX by {
            assert(rest[k] == s[k + 1]);
        }
        lemma_first_obu(next, rest, kind);
    }
}

/// Of a temporal unit whose OBUs give their sizes the first OBU of a type is found, whole and with
/// its header, and none where there is none.
pub proof fn law_first_obu_found(s: Seq<ObuView>, kind: u8)
    requires
        forall|i: int|
            0 <= i < s.len() ==> (#[trigger] s[i]).kind < 16 && s[i].payload.len() <= u64::MAX,
    ensures
        first_obu(unit_bytes(s), 0, kind) == first_of(s, kind),
{
    lemma_first_obu(Seq::empty(), s, kind);
    assert(Seq::<u8>::empty() + unit_bytes(s) =~= unit_bytes(s));
}

} // verus!
