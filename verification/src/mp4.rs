//! MP4 (ISO base media file format) writer.
//!
//! AV1 (`av01` + `av1C`) or H.264 (`avc1` + `avcC`) video, optionally with an AAC audio track.

use vstd::prelude::*;
use crate::audio::{audio_view, AudioCodec, AudioData, AudioDataView, AudioFrameView};
use crate::bytes::{
    be16, be32, be32_all, be_bytes, concat, holds_piece, lemma_be_bytes_len, lemma_concat_at,
    lemma_empty_add, lemma_piece_in_middle, lemma_piece_self, low16, low32, push_all, push_be,
    push_text, push_u16, push_u32, push_zeros, shl16, text, views, wrap32, zeros,
};
use crate::diag::{CandyError, CandyWarn, WarnView};
use crate::meta::PrivateMeta;
use crate::video::{EncodedVideo, EncodedVideoFile, EncodedVideoView};

verus! {

broadcast use lemma_empty_add;

// ---------------------------------------------------------------- boxes

/// A box: `[size:4][type:4][payload]`.
pub open spec fn plain_box(name: Seq<u8>, payload: Seq<u8>) -> Seq<u8> {
    be32(payload.len() as int + 8) + name + payload
}

/// A full box: `[size:4][type:4][version:1][flags:3][payload]`.
pub open spec fn versioned_box(
    name: Seq<u8>,
    version: u8,
    flags: nat,
    payload: Seq<u8>,
) -> Seq<u8> {
    plain_box(name, seq![version] + be_bytes(flags, 3) + payload)
}

/// Build a box: `[size:4][type:4][payload]`.
pub fn b(name: &[u8], payload: &[u8]) -> (r: Vec<u8>)
    ensures
        r@ == plain_box(name@, payload@),
{
    let mut v: Vec<u8> = Vec::new();
    let size: u32 = low32(payload.len()).wrapping_add(8);
    push_u32(&mut v, size);
    proof {
        assert(size as int == (payload@.len() + 8) % 0x1_0000_0000);
    }
    push_all(&mut v, name);
    push_all(&mut v, payload);
    v
}

/// Build a full box: `[size:4][type:4][version:1][flags:3][payload]`.
pub fn full_box(name: &[u8], version: u8, flags: u32, payload: &[u8]) -> (r: Vec<u8>)
    ensures
        r@ == versioned_box(name@, version, flags as nat, payload@),
{
    let mut body: Vec<u8> = Vec::new();
    body.push(version);
    assert(body@ =~= seq![version]);
    push_be(&mut body, flags as u64, 3);
    push_all(&mut body, payload);
    b(name, body.as_slice())
}

/// The unity matrix of `tkhd` and `mvhd`: nine 32-bit fixed-point numbers.
pub open spec fn matrix() -> Seq<u8> {
    be32(0x1_0000) + zeros(12) + be32(0x1_0000) + zeros(12) + be32(0x4000_0000)
}

fn push_matrix(out: &mut Vec<u8>)
    ensures
        final(out)@ == old(out)@ + matrix(),
{
    let mut m: Vec<u8> = Vec::new();
    push_u32(&mut m, 0x1_0000);
    push_zeros(&mut m, 12);
    push_u32(&mut m, 0x1_0000);
    push_zeros(&mut m, 12);
    push_u32(&mut m, 0x4000_0000);
    push_all(out, m.as_slice());
}

// ---------------------------------------------------------------- tables

/// The 1-based numbers of the samples that `keyframes` marks, in order.
pub open spec fn sync_samples(keyframes: Seq<bool>) -> Seq<nat>
    decreases keyframes.len(),
{
    if keyframes.len() == 0 {
        Seq::empty()
    } else if keyframes.last() {
        sync_samples(keyframes.drop_last()).push(keyframes.len())
    } else {
        sync_samples(keyframes.drop_last())
    }
}

/// The sync samples of a track: those marked, or the first sample where none is.
pub open spec fn sync_table(keyframes: Seq<bool>) -> Seq<nat> {
    if sync_samples(keyframes).len() == 0 {
        seq![1]
    } else {
        sync_samples(keyframes)
    }
}

/// The length of each byte string, as a 32-bit field holds it.
pub open spec fn sizes_of(frames: Seq<Seq<u8>>) -> Seq<nat> {
    frames.map_values(|f: Seq<u8>| wrap32(f.len() as int))
}

/// The sum of all numbers in `s`.
pub open spec fn sum(s: Seq<nat>) -> nat
    decreases s.len(),
{
    if s.len() == 0 {
        0
    } else {
        sum(s.drop_last()) + s.last()
    }
}

/// The numbers of `s` as mathematical integers.
pub open spec fn nats(s: Seq<u32>) -> Seq<nat> {
    s.map_values(|x: u32| x as nat)
}

fn push_u32_all(out: &mut Vec<u8>, s: &[u32])
    ensures
        final(out)@ == old(out)@ + be32_all(nats(s@)),
{
    let mut i: usize = 0;
    assert(nats(s@).take(0) =~= Seq::<nat>::empty());
    assert(out@ =~= old(out)@ + be32_all(nats(s@).take(0)));
    while i < s.len()
        invariant
            i <= s.len(),
            out@ == old(out)@ + be32_all(nats(s@).take(i as int)),
        decreases s.len() - i,
    {
        push_u32(out, s[i]);
        proof {
            let next = nats(s@).take(i + 1);
            assert(next.drop_last() =~= nats(s@).take(i as int));
            assert(out@ =~= old(out)@ + be32_all(next));
        }
        i += 1;
    }
    assert(nats(s@).take(s@.len() as int) =~= nats(s@));
}

fn sync_list(keyframes: &[bool]) -> (r: Vec<u32>)
    ensures
        r@.len() == sync_samples(keyframes@).len(),
        forall|i: int|
            0 <= i < r@.len() ==> #[trigger] r@[i] as nat == wrap32(
                sync_samples(keyframes@)[i] as int,
            ),
{
    let mut r: Vec<u32> = Vec::new();
    let mut i: usize = 0;
    assert(keyframes@.take(0) =~= Seq::<bool>::empty());
    while i < keyframes.len()
        invariant
            i <= keyframes.len(),
            r@.len() == sync_samples(keyframes@.take(i as int)).len(),
            forall|j: int|
                0 <= j < r@.len() ==> #[trigger] r@[j] as nat == wrap32(
                    sync_samples(keyframes@.take(i as int))[j] as int,
                ),
        decreases keyframes.len() - i,
    {
        assert(keyframes@.take(i + 1).drop_last() =~= keyframes@.take(i as int));
        if keyframes[i] {
            r.push(low32(i).wrapping_add(1));
        }
        i += 1;
    }
    assert(keyframes@.take(keyframes@.len() as int) =~= keyframes@);
    r
}

/// Writing numbers in 32-bit fields looks at their low-order bits alone.
proof fn lemma_be32_all_wrap(s: Seq<nat>, t: Seq<nat>)
    requires
        s.len() == t.len(),
        forall|i: int| 0 <= i < s.len() ==> #[trigger] t[i] == wrap32(s[i] as int),
    ensures
        be32_all(s) == be32_all(t),
    decreases s.len(),
{
    if s.len() > 0 {
        assert forall|i: int| 0 <= i < s.drop_last().len() implies #[trigger] t.drop_last()[i]
            == wrap32(s.drop_last()[i] as int) by {
            assert(t[i] == wrap32(s[i] as int));
        }
        lemma_be32_all_wrap(s.drop_last(), t.drop_last());
        assert(t[t.len() - 1] == wrap32(s[s.len() - 1] as int));
    }
}

// ---------------------------------------------------------------- video track

pub open spec fn tkhd(id: int, duration: int, volume: int, width: int, height: int) -> Seq<u8> {
    versioned_box(
        text("tkhd"@),
        0,
        7,
        be32(0) + be32(0) + be32(id) + be32(0) + be32(duration) + zeros(8) + be16(0) + be16(0)
            + be16(volume) + be16(0) + matrix() + be32(width) + be32(height),
    )
}

/// The track header looks at the 32 low-order bits of each field alone.
proof fn lemma_tkhd_wrap(id: int, d: int, volume: int, w: int, h: int)
    ensures
        tkhd(id, d, volume, w, h) == tkhd(
            id,
            d % 0x1_0000_0000,
            volume,
            w % 0x1_0000_0000,
            h % 0x1_0000_0000,
        ),
{
    assert(be32(d) == be32(d % 0x1_0000_0000));
    assert(be32(w) == be32(w % 0x1_0000_0000));
    assert(be32(h) == be32(h % 0x1_0000_0000));
}

fn build_tkhd(id: u32, duration: u32, volume: u16, width: u32, height: u32) -> (r: Vec<u8>)
    ensures
        r@ == tkhd(id as int, duration as int, volume as int, width as int, height as int),
{
    let mut p: Vec<u8> = Vec::new();
    push_u32(&mut p, 0);
    push_u32(&mut p, 0);
    push_u32(&mut p, id);
    push_u32(&mut p, 0);
    push_u32(&mut p, duration);
    push_zeros(&mut p, 8);
    push_u16(&mut p, 0);  // layer
    push_u16(&mut p, 0);  // alternate_group
    push_u16(&mut p, volume);
    push_u16(&mut p, 0);
    push_matrix(&mut p);
    push_u32(&mut p, width);
    push_u32(&mut p, height);
    full_box("tkhd".as_bytes(), 0, 7, p.as_slice())
}

/// The media header, with a duration of 32 bits.
pub open spec fn mdhd(timescale: int, duration: int) -> Seq<u8> {
    versioned_box(
        text("mdhd"@),
        0,
        0,
        be32(0) + be32(0) + be32(timescale) + be32(duration) + be16(0x55C4) + be16(0),
    )
}

fn build_mdhd(timescale: u32, duration: u32) -> (r: Vec<u8>)
    ensures
        r@ == mdhd(timescale as int, duration as int),
{
    let mut p: Vec<u8> = Vec::new();
    push_u32(&mut p, 0);
    push_u32(&mut p, 0);
    push_u32(&mut p, timescale);
    push_u32(&mut p, duration);
    push_u16(&mut p, 0x55C4);  // language "und"
    push_u16(&mut p, 0);
    full_box("mdhd".as_bytes(), 0, 0, p.as_slice())
}

/// The media header, with times and a duration of 64 bits.
pub open spec fn wide_mdhd(timescale: int, duration: nat) -> Seq<u8> {
    versioned_box(
        text("mdhd"@),
        1,
        0,
        zeros(8) + zeros(8) + be32(timescale) + be_bytes(duration, 8) + be16(0x55C4) + be16(0),
    )
}

fn build_wide_mdhd(timescale: u32, duration: u64) -> (r: Vec<u8>)
    ensures
        r@ == wide_mdhd(timescale as int, duration as nat),
{
    let mut p: Vec<u8> = Vec::new();
    push_zeros(&mut p, 8);  // creation_time
    push_zeros(&mut p, 8);  // modification_time
    push_u32(&mut p, timescale);
    push_be(&mut p, duration, 8);
    push_u16(&mut p, 0x55C4);  // language "und"
    push_u16(&mut p, 0);
    full_box("mdhd".as_bytes(), 1, 0, p.as_slice())
}

/// The handler box; the name ends in a zero byte.
pub open spec fn hdlr(kind: Seq<char>, name: Seq<char>) -> Seq<u8> {
    versioned_box(
        text("hdlr"@),
        0,
        0,
        be32(0) + text(kind) + zeros(12) + text(name) + zeros(1),
    )
}

fn build_hdlr(kind: &str, name: &str) -> (r: Vec<u8>)
    ensures
        r@ == hdlr(kind@, name@),
{
    let mut p: Vec<u8> = Vec::new();
    push_u32(&mut p, 0);
    push_text(&mut p, kind);
    push_zeros(&mut p, 12);
    push_text(&mut p, name);
    push_zeros(&mut p, 1);
    full_box("hdlr".as_bytes(), 0, 0, p.as_slice())
}

/// The data information box: the data lies in this same file.
pub open spec fn dinf() -> Seq<u8> {
    plain_box(
        text("dinf"@),
        versioned_box(
            text("dref"@),
            0,
            0,
            be32(1) + versioned_box(text("url "@), 0, 1, Seq::empty()),
        ),
    )
}

fn build_dinf() -> (r: Vec<u8>)
    ensures
        r@ == dinf(),
{
    let nothing: Vec<u8> = Vec::new();
    let url = full_box("url ".as_bytes(), 0, 1, nothing.as_slice());
    let mut p: Vec<u8> = Vec::new();
    push_u32(&mut p, 1);
    push_all(&mut p, url.as_slice());
    let dref = full_box("dref".as_bytes(), 0, 0, p.as_slice());
    b("dinf".as_bytes(), dref.as_slice())
}

/// The sample-to-chunk table: one chunk with all `n` samples.
pub open spec fn stsc(n: int) -> Seq<u8> {
    versioned_box(text("stsc"@), 0, 0, be32(1) + be32(1) + be32(n) + be32(1))
}

fn build_stsc(n: u32) -> (r: Vec<u8>)
    ensures
        r@ == stsc(n as int),
{
    let mut p: Vec<u8> = Vec::new();
    push_u32(&mut p, 1);
    push_u32(&mut p, 1);
    push_u32(&mut p, n);
    push_u32(&mut p, 1);
    full_box("stsc".as_bytes(), 0, 0, p.as_slice())
}

/// The sample sizes: a count `n` and every size.
pub open spec fn stsz(n: int, sizes: Seq<nat>) -> Seq<u8> {
    versioned_box(text("stsz"@), 0, 0, be32(0) + be32(n) + be32_all(sizes))
}

fn build_stsz(n: u32, sizes: &[u32]) -> (r: Vec<u8>)
    ensures
        r@ == stsz(n as int, nats(sizes@)),
{
    let mut p: Vec<u8> = Vec::new();
    push_u32(&mut p, 0);
    push_u32(&mut p, n);
    push_u32_all(&mut p, sizes);
    full_box("stsz".as_bytes(), 0, 0, p.as_slice())
}

/// The chunk offsets: the one chunk starts at byte `offset` of the file.
pub open spec fn stco(offset: int) -> Seq<u8> {
    versioned_box(text("stco"@), 0, 0, be32(1) + be32(offset))
}

fn build_stco(offset: u32) -> (r: Vec<u8>)
    ensures
        r@ == stco(offset as int),
{
    let mut p: Vec<u8> = Vec::new();
    push_u32(&mut p, 1);
    push_u32(&mut p, offset);
    full_box("stco".as_bytes(), 0, 0, p.as_slice())
}

/// The sync sample table.
pub open spec fn stss(keyframes: Seq<bool>) -> Seq<u8> {
    versioned_box(
        text("stss"@),
        0,
        0,
        be32(sync_table(keyframes).len() as int) + be32_all(sync_table(keyframes)),
    )
}

/// Lists the actual keyframes. A table must name at least one sample, so where none is
/// marked it names the first.
fn build_stss(keyframes: &[bool]) -> (r: Vec<u8>)
    ensures
        r@ == stss(keyframes@),
{
    let mut sync: Vec<u32> = sync_list(keyframes);
    let mut p: Vec<u8> = Vec::new();
    if sync.is_empty() {
        sync.push(1);
        assert(sync@ =~= seq![1u32]);
        assert(nats(sync@) =~= sync_table(keyframes@));
    }
    push_u32(&mut p, low32(sync.len()));
    push_u32_all(&mut p, sync.as_slice());
    proof {
        assert forall|i: int| 0 <= i < sync@.len() implies #[trigger] nats(sync@)[i] == wrap32(
            sync_table(keyframes@)[i] as int,
        ) by {
            assert(nats(sync@)[i] == sync@[i] as nat);
        }
        lemma_be32_all_wrap(sync_table(keyframes@), nats(sync@));
        assert(wrap32(sync@.len() as int) as int % 0x1_0000_0000 == sync@.len() % 0x1_0000_0000);
    }
    full_box("stss".as_bytes(), 0, 0, p.as_slice())
}

/// The sample entry of the video track, with the decoder configuration.
pub open spec fn video_entry(v: EncodedVideoView) -> Seq<u8> {
    plain_box(
        if v.is_av1 {
            text("av01"@)
        } else {
            text("avc1"@)
        },
        zeros(6) + be16(1) + zeros(16) + be16(v.width as int) + be16(v.height as int) + be32(
            0x0048_0000,
        ) + be32(0x0048_0000) + be32(0) + be16(1) + zeros(32) + be16(24) + be16(0xFFFF)
            + plain_box(
            if v.is_av1 {
                text("av1C"@)
            } else {
                text("avcC"@)
            },
            v.codec_private,
        ),
    )
}

fn video_sample_entry(v: &EncodedVideo) -> (r: Vec<u8>)
    ensures
        r@ == video_entry(v@),
{
    let mut p: Vec<u8> = Vec::new();
    push_zeros(&mut p, 6);  // reserved
    push_u16(&mut p, 1);  // data_reference_index
    push_zeros(&mut p, 16);
    push_u16(&mut p, low16(v.width));
    push_u16(&mut p, low16(v.height));
    push_u32(&mut p, 0x0048_0000);
    push_u32(&mut p, 0x0048_0000);
    push_u32(&mut p, 0);
    push_u16(&mut p, 1);  // frame_count
    push_zeros(&mut p, 32);  // compressorname
    push_u16(&mut p, 24);  // depth
    push_u16(&mut p, 0xFFFF);
    let config = if v.is_av1 {
        b("av1C".as_bytes(), v.codec_private.as_slice())
    } else {
        b("avcC".as_bytes(), v.codec_private.as_slice())
    };
    push_all(&mut p, config.as_slice());
    if v.is_av1 {
        b("av01".as_bytes(), p.as_slice())
    } else {
        b("avc1".as_bytes(), p.as_slice())
    }
}

/// The sample description box with its one entry.
pub open spec fn stsd(entry: Seq<u8>) -> Seq<u8> {
    versioned_box(text("stsd"@), 0, 0, be32(1) + entry)
}

fn build_stsd(entry: &[u8]) -> (r: Vec<u8>)
    ensures
        r@ == stsd(entry@),
{
    let mut p: Vec<u8> = Vec::new();
    push_u32(&mut p, 1);
    push_all(&mut p, entry);
    full_box("stsd".as_bytes(), 0, 0, p.as_slice())
}

/// The track box: header, media header, handler, media information.
pub open spec fn trak(
    tkhd: Seq<u8>,
    mdhd: Seq<u8>,
    hdlr: Seq<u8>,
    header: Seq<u8>,
    stbl: Seq<u8>,
) -> Seq<u8> {
    plain_box(
        text("trak"@),
        tkhd + plain_box(
            text("mdia"@),
            mdhd + hdlr + plain_box(
                text("minf"@),
                header + dinf() + plain_box(text("stbl"@), stbl),
            ),
        ),
    )
}

fn build_trak(tkhd: &[u8], mdhd: &[u8], hdlr: &[u8], header: &[u8], tables: &[u8]) -> (r: Vec<u8>)
    ensures
        r@ == trak(tkhd@, mdhd@, hdlr@, header@, tables@),
{
    let mut minf: Vec<u8> = Vec::new();
    push_all(&mut minf, header);
    push_all(&mut minf, build_dinf().as_slice());
    push_all(&mut minf, b("stbl".as_bytes(), tables).as_slice());
    let mut mdia: Vec<u8> = Vec::new();
    push_all(&mut mdia, mdhd);
    push_all(&mut mdia, hdlr);
    push_all(&mut mdia, b("minf".as_bytes(), minf.as_slice()).as_slice());
    let mut p: Vec<u8> = Vec::new();
    push_all(&mut p, tkhd);
    push_all(&mut p, b("mdia".as_bytes(), mdia.as_slice()).as_slice());
    b("trak".as_bytes(), p.as_slice())
}

/// The video media header.
pub open spec fn vmhd() -> Seq<u8> {
    versioned_box(text("vmhd"@), 0, 1, be16(0) + zeros(6))
}

/// The sample tables of the video track.
pub open spec fn video_tables(
    v: EncodedVideoView,
    n: int,
    sizes: Seq<nat>,
    offset: int,
) -> Seq<u8> {
    stsd(video_entry(v)) + versioned_box(text("stts"@), 0, 0, be32(1) + be32(n) + be32(1)) + stsc(n)
        + stss(v.keyframes) + stsz(n, sizes) + stco(offset)
}

/// The video track: `n` samples of the given sizes, the first at byte `offset` of the file.
pub open spec fn video_trak(
    v: EncodedVideoView,
    n: int,
    sizes: Seq<nat>,
    total_ms: int,
    offset: int,
) -> Seq<u8> {
    trak(
        tkhd(1, total_ms, 0, v.width * 0x1_0000, v.height * 0x1_0000),
        mdhd(v.fps as int, n),
        hdlr("vide"@, "candy video"@),
        vmhd(),
        video_tables(v, n, sizes, offset),
    )
}

fn build_video_tables(v: &EncodedVideo, nframes: u32, v_sizes: &[u32], v_off: u32) -> (r: Vec<u8>)
    ensures
        r@ == video_tables(v@, nframes as int, nats(v_sizes@), v_off as int),
{
    let mut times: Vec<u8> = Vec::new();
    push_u32(&mut times, 1);
    push_u32(&mut times, nframes);
    push_u32(&mut times, 1);
    let mut tables: Vec<u8> = Vec::new();
    push_all(&mut tables, build_stsd(video_sample_entry(v).as_slice()).as_slice());
    push_all(&mut tables, full_box("stts".as_bytes(), 0, 0, times.as_slice()).as_slice());
    push_all(&mut tables, build_stsc(nframes).as_slice());
    push_all(&mut tables, build_stss(v.keyframes.as_slice()).as_slice());
    push_all(&mut tables, build_stsz(nframes, v_sizes).as_slice());
    push_all(&mut tables, build_stco(v_off).as_slice());
    tables
}

fn build_vmhd() -> (r: Vec<u8>)
    ensures
        r@ == vmhd(),
{
    let mut p: Vec<u8> = Vec::new();
    push_u16(&mut p, 0);
    push_zeros(&mut p, 6);
    full_box("vmhd".as_bytes(), 0, 1, p.as_slice())
}

/// Builds the video track.
pub fn build_video_trak(
    v: &EncodedVideo,
    nframes: u32,
    v_sizes: &[u32],
    total_ms: u64,
    v_off: u32,
) -> (r: Vec<u8>)
    ensures
        r@ == video_trak(v@, nframes as int, nats(v_sizes@), total_ms as int, v_off as int),
{
    let duration: u32 = (total_ms % 0x1_0000_0000) as u32;
    let head = build_tkhd(1, duration, 0, shl16(v.width), shl16(v.height));
    let media = build_mdhd(v.fps, nframes);
    let handler = build_hdlr("vide", "candy video");
    let header = build_vmhd();
    let tables = build_video_tables(v, nframes, v_sizes, v_off);
    proof {
        lemma_tkhd_wrap(1, total_ms as int, 0, v.width * 0x1_0000, v.height * 0x1_0000);
    }
    build_trak(
        head.as_slice(),
        media.as_slice(),
        handler.as_slice(),
        header.as_slice(),
        tables.as_slice(),
    )
}

// ---------------------------------------------------------------- audio track

/// A descriptor: `[tag][len][payload]`; the length takes one byte.
pub open spec fn descriptor(tag: u8, payload: Seq<u8>) -> Seq<u8> {
    seq![tag, (payload.len() % 256) as u8] + payload
}

/// Wraps `payload` in a descriptor.
pub fn desc(tag: u8, payload: &[u8]) -> (r: Vec<u8>)
    ensures
        r@ == descriptor(tag, payload@),
{
    let mut v: Vec<u8> = Vec::new();
    v.push(tag);
    v.push((payload.len() % 256) as u8);
    assert(v@ =~= seq![tag, (payload@.len() % 256) as u8]);
    push_all(&mut v, payload);
    v
}

/// The elementary stream descriptor for AAC LC with the given decoder configuration.
pub open spec fn esds_payload(config: Seq<u8>) -> Seq<u8> {
    descriptor(
        0x03,
        be16(1) + zeros(1) + descriptor(
            0x04,
            seq![0x40u8, 0x15u8] + zeros(3) + be32(0) + be32(0) + descriptor(0x05, config),
        ) + descriptor(0x06, seq![0x02u8]),
    )
}

/// Builds an `esds` payload (elementary stream descriptor) for AAC LC.
pub fn esds(a: &AudioData) -> (r: Vec<u8>)
    ensures
        r@ == esds_payload(a.codec_private@),
{
    let dsi = desc(0x05, a.codec_private.as_slice());
    let mut sl_config: Vec<u8> = Vec::new();
    sl_config.push(0x02);
    assert(sl_config@ =~= seq![0x02u8]);
    let sl = desc(0x06, sl_config.as_slice());
    let mut dc: Vec<u8> = Vec::new();
    dc.push(0x40);  // objectTypeIndication (AAC)
    dc.push(0x15);  // streamType = audio
    assert(dc@ =~= seq![0x40u8, 0x15u8]);
    push_zeros(&mut dc, 3);  // bufferSizeDB
    push_u32(&mut dc, 0);  // maxBitrate
    push_u32(&mut dc, 0);  // avgBitrate
    push_all(&mut dc, dsi.as_slice());
    let mut es: Vec<u8> = Vec::new();
    push_u16(&mut es, 1);  // ES_ID
    push_zeros(&mut es, 1);  // flags
    push_all(&mut es, desc(0x04, dc.as_slice()).as_slice());
    push_all(&mut es, sl.as_slice());
    desc(0x03, es.as_slice())
}

/// The sample entry of the audio track.
pub open spec fn audio_entry(a: AudioDataView) -> Seq<u8> {
    plain_box(
        text("mp4a"@),
        zeros(6) + be16(1) + zeros(8) + be16(a.channels as int) + be16(16) + be16(0) + be16(0)
            + be32((a.sample_rate * 0x1_0000) % 0x1_0000_0000) + versioned_box(
            text("esds"@),
            0,
            0,
            esds_payload(a.codec_private),
        ),
    )
}

fn audio_sample_entry_mp4(a: &AudioData) -> (r: Vec<u8>)
    ensures
        r@ == audio_entry(a@),
{
    let mut p: Vec<u8> = Vec::new();
    push_zeros(&mut p, 6);
    push_u16(&mut p, 1);
    push_zeros(&mut p, 8);
    push_u16(&mut p, a.channels);
    push_u16(&mut p, 16);
    push_u16(&mut p, 0);
    push_u16(&mut p, 0);
    push_u32(&mut p, shl16(a.sample_rate));
    push_all(&mut p, full_box("esds".as_bytes(), 0, 0, esds(a).as_slice()).as_slice());
    b("mp4a".as_bytes(), p.as_slice())
}

/// Time-to-sample entries: one sample for each duration.
pub open spec fn stts_entries(durs: Seq<nat>) -> Seq<u8>
    decreases durs.len(),
{
    if durs.len() == 0 {
        Seq::empty()
    } else {
        stts_entries(durs.drop_last()) + be32(1) + be32(durs.last() as int)
    }
}

fn push_stts_entries(out: &mut Vec<u8>, durs: &[u32])
    ensures
        final(out)@ == old(out)@ + stts_entries(nats(durs@)),
{
    let mut i: usize = 0;
    assert(nats(durs@).take(0) =~= Seq::<nat>::empty());
    assert(out@ =~= old(out)@ + stts_entries(nats(durs@).take(0)));
    while i < durs.len()
        invariant
            i <= durs.len(),
            out@ == old(out)@ + stts_entries(nats(durs@).take(i as int)),
        decreases durs.len() - i,
    {
        push_u32(out, 1);
        push_u32(out, durs[i]);
        proof {
            let next = nats(durs@).take(i + 1);
            assert(next.drop_last() =~= nats(durs@).take(i as int));
            assert(out@ =~= old(out)@ + stts_entries(next));
        }
        i += 1;
    }
    assert(nats(durs@).take(durs@.len() as int) =~= nats(durs@));
}

fn sum64(s: &[u32]) -> (r: u64)
    ensures
        r as nat == sum(nats(s@)) % 0x1_0000_0000_0000_0000,
{
    let mut r: u64 = 0;
    let mut i: usize = 0;
    assert(nats(s@).take(0) =~= Seq::<nat>::empty());
    while i < s.len()
        invariant
            i <= s.len(),
            r as nat == sum(nats(s@).take(i as int)) % 0x1_0000_0000_0000_0000,
        decreases s.len() - i,
    {
        assert(nats(s@).take(i + 1).drop_last() =~= nats(s@).take(i as int));
        r = r.wrapping_add(s[i] as u64);
        i += 1;
    }
    assert(nats(s@).take(s@.len() as int) =~= nats(s@));
    r
}

/// The sample tables of the audio track.
pub open spec fn audio_tables(
    a: AudioDataView,
    sizes: Seq<nat>,
    durs: Seq<nat>,
    offset: int,
) -> Seq<u8> {
    stsd(audio_entry(a)) + versioned_box(
        text("stts"@),
        0,
        0,
        be32(durs.len() as int) + stts_entries(durs),
    ) + stsc(sizes.len() as int) + stsz(sizes.len() as int, sizes) + stco(offset)
}

fn build_audio_tables(a: &AudioData, sizes: &[u32], durs: &[u32], a_off: u32) -> (r: Vec<u8>)
    ensures
        r@ == audio_tables(a@, nats(sizes@), nats(durs@), a_off as int),
{
    let mut times: Vec<u8> = Vec::new();
    push_u32(&mut times, low32(durs.len()));
    assert(times@ == be32(durs@.len() as int));
    push_stts_entries(&mut times, durs);
    let count: u32 = low32(sizes.len());
    proof {
        assert(be32(count as int) == be32(sizes@.len() as int));
    }
    let mut tables: Vec<u8> = Vec::new();
    push_all(&mut tables, build_stsd(audio_sample_entry_mp4(a).as_slice()).as_slice());
    push_all(&mut tables, full_box("stts".as_bytes(), 0, 0, times.as_slice()).as_slice());
    push_all(&mut tables, build_stsc(count).as_slice());
    push_all(&mut tables, build_stsz(count, sizes).as_slice());
    push_all(&mut tables, build_stco(a_off).as_slice());
    tables
}

/// The sound media header.
pub open spec fn smhd() -> Seq<u8> {
    versioned_box(text("smhd"@), 0, 0, be16(0) + be16(0))
}

/// The audio track: samples of the given sizes and durations, the first at byte `offset`.
pub open spec fn audio_trak(
    a: AudioDataView,
    sizes: Seq<nat>,
    durs: Seq<nat>,
    offset: int,
) -> Seq<u8> {
    trak(
        tkhd(2, 0, 0x0100, 0, 0),
        wide_mdhd(a.sample_rate as int, sum(durs) % 0x1_0000_0000_0000_0000),
        hdlr("soun"@, "candy audio"@),
        smhd(),
        audio_tables(a, sizes, durs, offset),
    )
}

/// Builds the audio track.
pub fn build_audio_trak_mp4(a: &AudioData, sizes: &[u32], durs: &[u32], a_off: u32) -> (r: Vec<u8>)
    ensures
        r@ == audio_trak(a@, nats(sizes@), nats(durs@), a_off as int),
{
    let head = build_tkhd(2, 0, 0x0100, 0, 0);
    let media = build_wide_mdhd(a.sample_rate, sum64(durs));
    let handler = build_hdlr("soun", "candy audio");
    let mut p: Vec<u8> = Vec::new();
    push_u16(&mut p, 0);
    push_u16(&mut p, 0);
    let header = full_box("smhd".as_bytes(), 0, 0, p.as_slice());
    let tables = build_audio_tables(a, sizes, durs, a_off);
    build_trak(
        head.as_slice(),
        media.as_slice(),
        handler.as_slice(),
        header.as_slice(),
        tables.as_slice(),
    )
}

// ---------------------------------------------------------------- metadata

/// The comment entry of an iTunes-style metadata list: `0xA9 'c' 'm' 't'`.
pub open spec fn comment_name() -> Seq<u8> {
    seq![0xA9u8, 0x63u8, 0x6Du8, 0x74u8]
}

/// The user-data box with `json` as a comment.
pub open spec fn meta_udta(json: Seq<u8>) -> Seq<u8> {
    plain_box(
        text("udta"@),
        versioned_box(
            text("meta"@),
            0,
            0,
            hdlr("mdir"@, "candy"@) + plain_box(
                text("ilst"@),
                plain_box(
                    comment_name(),
                    versioned_box(text("data"@), 0, 0, be32(1) + be32(0) + json),
                ),
            ),
        ),
    )
}

/// Builds a `udta` box that holds the private metadata as a comment entry.
pub fn build_meta_udta(json: &str) -> (r: Vec<u8>)
    ensures
        r@ == meta_udta(text(json@)),
{
    let mut p: Vec<u8> = Vec::new();
    push_u32(&mut p, 1);  // data_type = UTF-8
    push_u32(&mut p, 0);  // locale
    push_text(&mut p, json);
    let data = full_box("data".as_bytes(), 0, 0, p.as_slice());
    let mut name: Vec<u8> = Vec::new();
    name.push(0xA9);
    name.push(0x63);
    name.push(0x6D);
    name.push(0x74);
    assert(name@ =~= comment_name());
    let comment = b(name.as_slice(), data.as_slice());
    let ilst = b("ilst".as_bytes(), comment.as_slice());
    let mut meta: Vec<u8> = Vec::new();
    push_all(&mut meta, build_hdlr("mdir", "candy").as_slice());
    push_all(&mut meta, ilst.as_slice());
    b("udta".as_bytes(), full_box("meta".as_bytes(), 0, 0, meta.as_slice()).as_slice())
}

// ---------------------------------------------------------------- movie

/// The movie header.
pub open spec fn mvhd(total_ms: int, next_track_id: int) -> Seq<u8> {
    versioned_box(
        text("mvhd"@),
        0,
        0,
        be32(0) + be32(0) + be32(1000) + be32(total_ms) + be32(0x1_0000) + be16(0x0100) + zeros(10)
            + matrix() + zeros(24) + be32(next_track_id),
    )
}

fn build_mvhd(total_ms: u64, next_track_id: u32) -> (r: Vec<u8>)
    ensures
        r@ == mvhd(total_ms as int, next_track_id as int),
{
    let duration: u32 = (total_ms % 0x1_0000_0000) as u32;
    assert(be32(duration as int) == be32(total_ms as int));
    let mut p: Vec<u8> = Vec::new();
    push_u32(&mut p, 0);
    push_u32(&mut p, 0);
    push_u32(&mut p, 1000);  // timescale: milliseconds
    push_u32(&mut p, duration);
    push_u32(&mut p, 0x1_0000);  // rate
    push_u16(&mut p, 0x0100);  // volume
    push_zeros(&mut p, 10);
    push_matrix(&mut p);
    push_zeros(&mut p, 24);
    push_u32(&mut p, next_track_id);
    full_box("mvhd".as_bytes(), 0, 0, p.as_slice())
}

/// What an MP4 file says of its tracks.
pub struct Mp4Plan {
    pub video: EncodedVideoView,
    /// Number of video samples.
    pub count: int,
    pub video_sizes: Seq<nat>,
    pub audio: Option<AudioDataView>,
    pub audio_sizes: Seq<nat>,
    pub audio_durations: Seq<nat>,
    pub total_ms: int,
    /// The private metadata, as bytes.
    pub json: Seq<u8>,
}

/// The `moov` box, for tracks whose first samples lie at the given bytes of the file.
#[verifier::opaque]
pub open spec fn moov(p: Mp4Plan, video_offset: int, audio_offset: int) -> Seq<u8> {
    plain_box(
        text("moov"@),
        mvhd(
            p.total_ms,
            if p.audio_sizes.len() > 0 {
                3
            } else {
                2
            },
        ) + video_trak(p.video, p.count, p.video_sizes, p.total_ms, video_offset)
            + audio_part(p, audio_offset) + meta_udta(p.json),
    )
}

/// The audio track of the movie, where it has one.
pub open spec fn audio_part(p: Mp4Plan, audio_offset: int) -> Seq<u8> {
    match p.audio {
        Some(a) if p.audio_sizes.len() > 0 => audio_trak(
            a,
            p.audio_sizes,
            p.audio_durations,
            audio_offset,
        ),
        _ => Seq::empty(),
    }
}

/// Builds the `moov` box. `v_off` and `a_off` are the file offsets of the first sample of
/// each track.
pub fn build_moov(
    v: &EncodedVideo,
    nframes: u32,
    audio: Option<&AudioData>,
    v_sizes: &[u32],
    a_sizes: &[u32],
    a_dur: &[u32],
    total_ms: u64,
    v_off: u32,
    a_off: u32,
    private_metadata: &PrivateMeta,
) -> (r: Vec<u8>)
    ensures
        r@ == moov(
            Mp4Plan {
                video: v@,
                count: nframes as int,
                video_sizes: nats(v_sizes@),
                audio: audio_view(audio),
                audio_sizes: nats(a_sizes@),
                audio_durations: nats(a_dur@),
                total_ms: total_ms as int,
                json: text(private_metadata@.json()),
            },
            v_off as int,
            a_off as int,
        ),
{
    proof {
        reveal(moov);
    }
    let has_audio = a_sizes.len() > 0;
    let next_track_id: u32 = if has_audio {
        3
    } else {
        2
    };
    let mut payload = build_mvhd(total_ms, next_track_id);
    let video = build_video_trak(v, nframes, v_sizes, total_ms, v_off);
    push_all(&mut payload, video.as_slice());
    let mut sound: Vec<u8> = Vec::new();
    if has_audio {
        if let Some(a) = audio {
            sound = build_audio_trak_mp4(a, a_sizes, a_dur, a_off);
        }
    }
    push_all(&mut payload, sound.as_slice());
    let json = private_metadata.to_json();
    push_all(&mut payload, build_meta_udta(json.as_str()).as_slice());
    b("moov".as_bytes(), payload.as_slice())
}

/// The file type box.
#[verifier::opaque]
pub open spec fn ftyp(is_av1: bool) -> Seq<u8> {
    plain_box(
        text("ftyp"@),
        text("isom"@) + zeros(4) + text("isom"@) + (if is_av1 {
            text("av01"@)
        } else {
            text("avc1"@)
        }) + text("mp42"@) + text("mmp4"@),
    )
}

fn build_ftyp(is_av1: bool) -> (r: Vec<u8>)
    ensures
        r@ == ftyp(is_av1),
{
    proof {
        reveal(ftyp);
    }
    let mut p: Vec<u8> = Vec::new();
    push_text(&mut p, "isom");  // major_brand
    push_zeros(&mut p, 4);  // minor_version
    push_text(&mut p, "isom");
    if is_av1 {
        push_text(&mut p, "av01");
    } else {
        push_text(&mut p, "avc1");
    }
    push_text(&mut p, "mp42");
    push_text(&mut p, "mmp4");
    b("ftyp".as_bytes(), p.as_slice())
}

/// Where the media data of the file starts: behind `ftyp`, `moov` and the header of `mdat`.
pub open spec fn media_offset(p: Mp4Plan) -> int {
    ftyp(p.video.is_av1).len() as int + moov(p, 0, 0).len() + 8
}

/// The `moov` box with the offsets that hold of the finished file.
pub open spec fn placed_moov(p: Mp4Plan) -> Seq<u8> {
    moov(
        p,
        wrap32(media_offset(p)) as int,
        wrap32(media_offset(p) + sum(p.video_sizes)) as int,
    )
}

/// Everything in front of the media data.
pub open spec fn mp4_header(p: Mp4Plan) -> Seq<u8> {
    ftyp(p.video.is_av1) + placed_moov(p) + mdat_header(sum(p.video_sizes), sum(p.audio_sizes))
}

/// The sizes of the audio packets that go into an MP4 file: AAC only.
pub open spec fn aac_sizes(audio: Option<AudioDataView>) -> Seq<nat> {
    match audio {
        Some(a) if a.codec == AudioCodec::Aac => a.frames.map_values(
            |f: AudioFrameView| wrap32(f.data.len() as int),
        ),
        _ => Seq::empty(),
    }
}

/// The durations of the audio packets that go into an MP4 file, in samples.
pub open spec fn aac_durations(audio: Option<AudioDataView>) -> Seq<nat> {
    match audio {
        Some(a) if a.codec == AudioCodec::Aac => a.frames.map_values(
            |f: AudioFrameView| wrap32((f.duration_ms * a.sample_rate) / 1000),
        ),
        _ => Seq::empty(),
    }
}

/// The length of each AAC packet can be counted in samples without leaving 64 bits.
pub open spec fn durations_fit(audio: Option<AudioDataView>) -> bool {
    match audio {
        Some(a) => a.codec == AudioCodec::Aac ==> forall|i: int|
            0 <= i < a.frames.len() ==> (#[trigger] a.frames[i]).duration_ms * a.sample_rate
                <= u64::MAX,
        None => true,
    }
}

/// What the file says of the tracks: `count` samples with the given sizes.
pub open spec fn mp4_plan(
    v: EncodedVideoView,
    sizes: Seq<nat>,
    audio: Option<AudioDataView>,
    json: Seq<char>,
) -> Mp4Plan {
    Mp4Plan {
        video: v,
        count: wrap32(sizes.len() as int) as int,
        video_sizes: sizes,
        audio,
        audio_sizes: aac_sizes(audio),
        audio_durations: aac_durations(audio),
        total_ms: (wrap32(sizes.len() as int) * 1000) as int / (v.fps as int),
        json: text(json),
    }
}

/// The track that an MP4 file carries: AAC, and nothing else.
pub open spec fn carried(audio: Option<AudioDataView>) -> Option<AudioDataView> {
    match audio {
        Some(a) if a.codec == AudioCodec::Aac => Some(a),
        _ => None,
    }
}

fn carried_track<'a>(audio: Option<&'a AudioData>) -> (r: Option<&'a AudioData>)
    ensures
        audio_view(r) == carried(audio_view(audio)),
{
    match audio {
        Some(a) => if a.codec == AudioCodec::Aac {
            Some(a)
        } else {
            None
        },
        None => None,
    }
}

/// The coded packets of the track that the file carries, one after the other.
pub open spec fn audio_bytes(audio: Option<AudioDataView>) -> Seq<u8> {
    match carried(audio) {
        Some(a) => concat(a.frames.map_values(|f: AudioFrameView| f.data)),
        None => Seq::empty(),
    }
}

/// The warning that a track is ignored, where there is one that is not AAC.
pub open spec fn ignored(audio: Option<AudioDataView>) -> Option<WarnView> {
    match audio {
        Some(a) => if a.codec == AudioCodec::Aac {
            None
        } else {
            Some(WarnView::AudioIgnored)
        },
        None => None,
    }
}

/// Finds the warning that goes with an MP4 file whose track is ignored.
pub fn mp4_warning(audio: Option<&AudioData>) -> (r: Option<CandyWarn>)
    ensures
        match r {
            Some(w) => ignored(audio_view(audio)) == Some(w@),
            None => ignored(audio_view(audio)) is None,
        },
{
    match audio {
        Some(a) => if a.codec == AudioCodec::Aac {
            None
        } else {
            Some(CandyWarn::AudioIgnored)
        },
        None => None,
    }
}

fn aac_size_list(audio: Option<&AudioData>) -> (r: Vec<u32>)
    ensures
        nats(r@) == aac_sizes(audio_view(audio)),
{
    let mut r: Vec<u32> = Vec::new();
    if let Some(a) = audio {
        if a.codec == AudioCodec::Aac {
            let mut i: usize = 0;
            while i < a.frames.len()
                invariant
                    i <= a.frames.len(),
                    r@.len() == i,
                    forall|j: int|
                        0 <= j < i ==> #[trigger] r@[j] as nat == wrap32(
                            a.frames@[j].data@.len() as int,
                        ),
                decreases a.frames.len() - i,
            {
                r.push(low32(a.frames[i].data.len()));
                i += 1;
            }
        }
    }
    assert(nats(r@) =~= aac_sizes(audio_view(audio)));
    r
}

fn aac_duration_list(audio: Option<&AudioData>) -> (r: Vec<u32>)
    requires
        durations_fit(audio_view(audio)),
    ensures
        nats(r@) == aac_durations(audio_view(audio)),
{
    let mut r: Vec<u32> = Vec::new();
    if let Some(a) = audio {
        if a.codec == AudioCodec::Aac {
            let mut i: usize = 0;
            while i < a.frames.len()
                invariant
                    i <= a.frames.len(),
                    r@.len() == i,
                    a.codec == AudioCodec::Aac,
                    durations_fit(Some(a@)),
                    forall|j: int|
                        0 <= j < i ==> #[trigger] r@[j] as nat == wrap32(
                            (a.frames@[j].duration_ms * a.sample_rate) / 1000,
                        ),
                decreases a.frames.len() - i,
            {
                proof {
                    assert(a@.frames[i as int].duration_ms * a@.sample_rate <= u64::MAX);
                    assert(a.frames@[i as int].duration_ms * a.sample_rate >= 0)
                        by (nonlinear_arith);
                }
                let samples: u64 = a.frames[i].duration_ms * (a.sample_rate as u64) / 1000;
                r.push((samples % 0x1_0000_0000) as u32);
                i += 1;
            }
        }
    }
    assert(nats(r@) =~= aac_durations(audio_view(audio)));
    r
}

fn sum32(s: &[u32]) -> (r: u32)
    ensures
        r as nat == wrap32(sum(nats(s@)) as int),
{
    let total: u64 = sum64(s);
    (total % 0x1_0000_0000) as u32
}

/// Sums may be cut to 32 bits before or after adding.
proof fn lemma_wrap_add(x: int, y: int, z: int)
    ensures
        wrap32(wrap32(x) + wrap32(y) + z) == wrap32(x + y + z),
{
}

fn offset_behind(first: usize, second: usize) -> (r: u32)
    ensures
        r as nat == wrap32(first + second + 8),
{
    proof {
        lemma_wrap_add(first as int, second as int, 8);
    }
    low32(first).wrapping_add(low32(second)).wrapping_add(8)
}

/// The header of the media data box, for samples that add up to the two sums.
pub open spec fn mdat_header(video: nat, audio: nat) -> Seq<u8> {
    be32((video + audio + 8) as int) + text("mdat"@)
}

fn media_size(v_sizes: &[u32], a_sizes: &[u32]) -> (r: u32)
    ensures
        r as nat == wrap32((sum(nats(v_sizes@)) + sum(nats(a_sizes@)) + 8) as int),
{
    let video: u32 = sum32(v_sizes);
    let audio: u32 = sum32(a_sizes);
    proof {
        lemma_wrap_add(sum(nats(v_sizes@)) as int, sum(nats(a_sizes@)) as int, 8);
    }
    let both: u32 = video.wrapping_add(audio);
    assert(both as nat == wrap32(video + audio));
    both.wrapping_add(8)
}

fn build_mdat_header(v_sizes: &[u32], a_sizes: &[u32]) -> (r: Vec<u8>)
    ensures
        r@ == mdat_header(sum(nats(v_sizes@)), sum(nats(a_sizes@))),
{
    let size: u32 = media_size(v_sizes, a_sizes);
    let mut r: Vec<u8> = Vec::new();
    push_u32(&mut r, size);
    push_text(&mut r, "mdat");
    r
}

fn build_movie(
    v: &EncodedVideo,
    v_sizes: &[u32],
    audio: Option<&AudioData>,
    a_sizes: &[u32],
    a_durs: &[u32],
    ftyp_len: usize,
    private_metadata: &PrivateMeta,
) -> (r: Vec<u8>)
    requires
        v.fps > 0,
        nats(a_sizes@) == aac_sizes(audio_view(audio)),
        nats(a_durs@) == aac_durations(audio_view(audio)),
        ftyp_len == ftyp(v.is_av1).len(),
    ensures
        r@ == placed_moov(
            mp4_plan(v@, nats(v_sizes@), audio_view(audio), private_metadata@.json()),
        ),
{
    let ghost plan = mp4_plan(v@, nats(v_sizes@), audio_view(audio), private_metadata@.json());
    let nframes: u32 = low32(v_sizes.len());
    let total_ms: u64 = (nframes as u64) * 1000 / (v.fps as u64);
    let measured = build_moov(
        v,
        nframes,
        audio,
        v_sizes,
        a_sizes,
        a_durs,
        total_ms,
        0,
        0,
        private_metadata,
    );
    assert(measured@ == moov(plan, 0, 0));
    let v_off: u32 = offset_behind(ftyp_len, measured.len());
    let a_off: u32 = v_off.wrapping_add(sum32(v_sizes));
    proof {
        lemma_wrap_add(media_offset(plan), sum(plan.video_sizes) as int, 0);
    }
    build_moov(
        v,
        nframes,
        audio,
        v_sizes,
        a_sizes,
        a_durs,
        total_ms,
        v_off,
        a_off,
        private_metadata,
    )
}

fn build_header(
    v: &EncodedVideo,
    v_sizes: &[u32],
    audio: Option<&AudioData>,
    private_metadata: &PrivateMeta,
) -> (r: Vec<u8>)
    requires
        v.fps > 0,
        durations_fit(audio_view(audio)),
    ensures
        r@ == mp4_header(
            mp4_plan(v@, nats(v_sizes@), audio_view(audio), private_metadata@.json()),
        ),
{
    let a_sizes = aac_size_list(audio);
    let a_durs = aac_duration_list(audio);
    let mut out = build_ftyp(v.is_av1);
    let movie = build_movie(
        v,
        v_sizes,
        audio,
        a_sizes.as_slice(),
        a_durs.as_slice(),
        out.len(),
        private_metadata,
    );
    push_all(&mut out, movie.as_slice());
    push_all(&mut out, build_mdat_header(v_sizes, a_sizes.as_slice()).as_slice());
    out
}

// ---------------------------------------------------------------- files

/// What [`mux_mp4`] asks of a track that has something to mux: a frame rate, and packet
/// durations that can be counted in samples.
pub open spec fn mp4_ready(count: nat, fps: u32, audio: Option<AudioDataView>) -> bool {
    wrap32(count as int) == 0 || (fps > 0 && durations_fit(audio))
}

/// The refusal of a video without frames.
pub open spec fn empty_video_error(e: CandyError) -> bool {
    e matches CandyError::Encode(m) && m@ == "cannot mux an empty video (E007)"@
}

fn frame_sizes(frames: &Vec<Vec<u8>>) -> (r: Vec<u32>)
    ensures
        nats(r@) == sizes_of(views(frames@)),
{
    let mut r: Vec<u32> = Vec::new();
    let mut i: usize = 0;
    while i < frames.len()
        invariant
            i <= frames.len(),
            r@.len() == i,
            forall|j: int|
                0 <= j < i ==> #[trigger] r@[j] as nat == wrap32(frames@[j]@.len() as int),
        decreases frames.len() - i,
    {
        r.push(low32(frames[i].len()));
        i += 1;
    }
    assert(nats(r@) =~= sizes_of(views(frames@)));
    r
}

fn push_frames(out: &mut Vec<u8>, frames: &Vec<Vec<u8>>)
    ensures
        final(out)@ == old(out)@ + concat(views(frames@)),
{
    let mut i: usize = 0;
    assert(views(frames@).take(0) =~= Seq::<Seq<u8>>::empty());
    assert(out@ =~= old(out)@ + concat(views(frames@).take(0)));
    while i < frames.len()
        invariant
            i <= frames.len(),
            out@ == old(out)@ + concat(views(frames@).take(i as int)),
        decreases frames.len() - i,
    {
        push_all(out, frames[i].as_slice());
        proof {
            let next = views(frames@).take(i + 1);
            assert(next.drop_last() =~= views(frames@).take(i as int));
            assert(out@ =~= old(out)@ + concat(next));
        }
        i += 1;
    }
    assert(views(frames@).take(frames@.len() as int) =~= views(frames@));
}

fn push_audio(out: &mut Vec<u8>, audio: Option<&AudioData>)
    ensures
        final(out)@ == old(out)@ + audio_bytes(audio_view(audio)),
{
    if let Some(a) = carried_track(audio) {
        let ghost parts = a@.frames.map_values(|f: AudioFrameView| f.data);
        let mut i: usize = 0;
        assert(parts.take(0) =~= Seq::<Seq<u8>>::empty());
        assert(out@ =~= old(out)@ + concat(parts.take(0)));
        while i < a.frames.len()
            invariant
                i <= a.frames.len(),
                parts == a@.frames.map_values(|f: AudioFrameView| f.data),
                out@ == old(out)@ + concat(parts.take(i as int)),
            decreases a.frames.len() - i,
        {
            push_all(out, a.frames[i].data.as_slice());
            proof {
                let next = parts.take(i + 1);
                assert(next.drop_last() =~= parts.take(i as int));
                assert(next.last() == a.frames@[i as int].data@);
                assert(out@ =~= old(out)@ + concat(next));
            }
            i += 1;
        }
        assert(parts.take(a.frames@.len() as int) =~= parts);
    } else {
        assert(out@ =~= old(out)@ + audio_bytes(audio_view(audio)));
    }
}

/// Puts together what stands behind the video samples of an MP4 file.
pub fn audio_payload(audio: Option<&AudioData>) -> (r: Vec<u8>)
    ensures
        r@ == audio_bytes(audio_view(audio)),
{
    let mut r: Vec<u8> = Vec::new();
    push_audio(&mut r, audio);
    assert(r@ =~= audio_bytes(audio_view(audio)));
    r
}

/// Muxes an encoded video (and optional audio) into an MP4 file.
///
/// The private metadata stands in the user-data area of `moov` as a comment entry. An audio
/// track that is not AAC is ignored; [`mp4_warning`] tells of it.
pub fn mux_mp4(
    v: &EncodedVideo,
    audio: Option<&AudioData>,
    private_metadata: &PrivateMeta,
) -> (r: Result<Vec<u8>, CandyError>)
    requires
        mp4_ready(v.frames@.len(), v.fps, audio_view(audio)),
    ensures
        match r {
            Ok(out) => wrap32(v.frames@.len() as int) != 0 && out@ == mp4_header(
                mp4_plan(
                    v@,
                    sizes_of(v@.frames),
                    carried(audio_view(audio)),
                    private_metadata@.json(),
                ),
            ) + concat(v@.frames) + audio_bytes(carried(audio_view(audio))),
            Err(e) => wrap32(v.frames@.len() as int) == 0 && empty_video_error(e),
        },
{
    if low32(v.frames.len()) == 0 {
        return Err(CandyError::Encode("cannot mux an empty video (E007)".to_owned()));
    }
    let sizes = frame_sizes(&v.frames);
    let track = carried_track(audio);
    let mut out = build_header(v, sizes.as_slice(), track, private_metadata);
    push_frames(&mut out, &v.frames);
    push_audio(&mut out, track);
    Ok(out)
}

/// The description of a file-backed video, without any samples.
pub open spec fn shim(v: EncodedVideoFile) -> EncodedVideoView {
    EncodedVideoView {
        width: v.width,
        height: v.height,
        fps: v.fps,
        is_av1: v.is_av1,
        is_hevc: v.is_hevc,
        frames: Seq::empty(),
        codec_private: v.codec_private@,
        keyframes: v.keyframes@,
    }
}

/// Carries what a muxer needs to know of a file-backed video, without any samples.
pub fn video_shim(v: &EncodedVideoFile) -> (r: EncodedVideo)
    ensures
        r@ == shim(*v),
{
    let frames: Vec<Vec<u8>> = Vec::new();
    let r = EncodedVideo {
        width: v.width,
        height: v.height,
        fps: v.fps,
        is_av1: v.is_av1,
        is_hevc: v.is_hevc,
        frames,
        codec_private: v.codec_private.clone(),
        keyframes: v.keyframes.clone(),
    };
    assert(r@.frames =~= Seq::empty());
    assert(r@.codec_private =~= v.codec_private@);
    assert(r@.keyframes =~= v.keyframes@);
    r
}

/// Everything that stands in front of the samples in the MP4 file of a file-backed video.
///
/// The samples follow, then what [`audio_payload`] gives. Only what describes the samples is held
/// in memory.
pub fn mp4_file_header(
    v: &EncodedVideoFile,
    audio: Option<&AudioData>,
    private_metadata: &PrivateMeta,
) -> (r: Result<Vec<u8>, CandyError>)
    requires
        mp4_ready(v.sample_sizes@.len(), v.fps, audio_view(audio)),
    ensures
        match r {
            Ok(out) => wrap32(v.sample_sizes@.len() as int) != 0 && out@ == mp4_header(
                mp4_plan(
                    shim(*v),
                    nats(v.sample_sizes@),
                    carried(audio_view(audio)),
                    private_metadata@.json(),
                ),
            ),
            Err(e) => wrap32(v.sample_sizes@.len() as int) == 0 && empty_video_error(e),
        },
{
    if low32(v.sample_sizes.len()) == 0 {
        return Err(CandyError::Encode("cannot mux an empty video (E007)".to_owned()));
    }
    let shimmed = video_shim(v);
    let track = carried_track(audio);
    Ok(build_header(&shimmed, v.sample_sizes.as_slice(), track, private_metadata))
}

// ---------------------------------------------------------------- laws

/// A box says its own size: the first four bytes are its length, modulo what they hold.
pub proof fn law_box_size(name: Seq<u8>, payload: Seq<u8>)
    requires
        name.len() == 4,
    ensures
        crate::bytes::be_value(plain_box(name, payload).take(4)) == wrap32(
            plain_box(name, payload).len() as int,
        ),
{
    broadcast use lemma_be_bytes_len;

    let size = payload.len() as int + 8;
    assert(plain_box(name, payload).take(4) =~= be32(size));
    crate::bytes::lemma_be_round_trip(wrap32(size), 4);
    assert(crate::bytes::pow256(4) == 0x1_0000_0000) by {
        reveal_with_fuel(crate::bytes::pow256, 5);
    }
}

/// The length of a track does not depend on where its samples lie.
proof fn lemma_video_trak_len(
    v: EncodedVideoView,
    n: int,
    sizes: Seq<nat>,
    total_ms: int,
    o1: int,
    o2: int,
)
    ensures
        video_trak(v, n, sizes, total_ms, o1).len() == video_trak(v, n, sizes, total_ms, o2).len(),
{
    broadcast use lemma_be_bytes_len;

    assert(stco(o1).len() == stco(o2).len());
    assert(video_tables(v, n, sizes, o1).len() == video_tables(v, n, sizes, o2).len());
}

proof fn lemma_audio_trak_len(a: AudioDataView, sizes: Seq<nat>, durs: Seq<nat>, o1: int, o2: int)
    ensures
        audio_trak(a, sizes, durs, o1).len() == audio_trak(a, sizes, durs, o2).len(),
{
    broadcast use lemma_be_bytes_len;

    assert(stco(o1).len() == stco(o2).len());
    assert(audio_tables(a, sizes, durs, o1).len() == audio_tables(a, sizes, durs, o2).len());
}

/// The length of `moov` does not depend on the offsets in it, so a first pass may measure it.
pub proof fn law_moov_len(p: Mp4Plan, v1: int, a1: int, v2: int, a2: int)
    ensures
        moov(p, v1, a1).len() == moov(p, v2, a2).len(),
{
    broadcast use lemma_be_bytes_len;

    reveal(moov);
    lemma_video_trak_len(p.video, p.count, p.video_sizes, p.total_ms, v1, v2);
    if let Some(a) = p.audio {
        lemma_audio_trak_len(a, p.audio_sizes, p.audio_durations, a1, a2);
    }
}

/// The offset that the video track names is the byte behind the header, where the samples
/// start.
pub proof fn law_media_offset(p: Mp4Plan)
    ensures
        mp4_header(p).len() == media_offset(p),
{
    broadcast use lemma_be_bytes_len;

    law_moov_len(
        p,
        0,
        0,
        wrap32(media_offset(p)) as int,
        wrap32(media_offset(p) + sum(p.video_sizes)) as int,
    );
    assert(text("mdat"@).len() == 4) by {
        reveal_strlit("mdat");
        vstd::utf8::is_ascii_chars_encode_utf8("mdat"@);
    }
}

/// The sync table names exactly the samples that are marked as keyframes.
pub proof fn law_sync_samples(keyframes: Seq<bool>, n: nat)
    ensures
        sync_samples(keyframes).contains(n) <==> (1 <= n <= keyframes.len() && keyframes[n - 1]),
    decreases keyframes.len(),
{
    if keyframes.len() > 0 {
        let rest = keyframes.drop_last();
        law_sync_samples(rest, n);
        if keyframes.last() {
            let s = sync_samples(rest);
            let t = s.push(keyframes.len());
            assert(sync_samples(keyframes) == t);
            assert(t.last() == keyframes.len());
            if s.contains(n) {
                let i = choose|i: int| 0 <= i < s.len() && s[i] == n;
                assert(t[i] == n);
            }
            if t.contains(n) {
                let i = choose|i: int| 0 <= i < t.len() && t[i] == n;
                if i < s.len() {
                    assert(s[i] == n);
                }
            }
            if n == keyframes.len() {
                assert(t[s.len() as int] == n);
            }
        }
    }
}

/// The sync table is in ascending order.
pub proof fn law_sync_samples_ascend(keyframes: Seq<bool>)
    ensures
        forall|i: int, j: int|
            0 <= i < j < sync_samples(keyframes).len() ==> sync_samples(keyframes)[i]
                < sync_samples(keyframes)[j],
        forall|i: int|
            0 <= i < sync_samples(keyframes).len() ==> (#[trigger] sync_samples(keyframes)[i])
                <= keyframes.len(),
    decreases keyframes.len(),
{
    if keyframes.len() > 0 {
        law_sync_samples_ascend(keyframes.drop_last());
        let s = sync_samples(keyframes.drop_last());
        let t = sync_samples(keyframes);
        assert forall|i: int| 0 <= i < s.len() implies #[trigger] s[i] < keyframes.len() by {}
        assert forall|i: int| 0 <= i < t.len() implies (#[trigger] t[i]) <= keyframes.len()
            && (i < s.len() ==> t[i] == s[i]) by {
            if i < s.len() {
                assert(t[i] == s[i]);
            }
        }
        assert forall|i: int, j: int| 0 <= i < j < t.len() implies t[i] < t[j] by {
            assert(t[i] == s[i]);
            if j < s.len() {
                assert(s[i] < s[j]);
            }
        }
    }
}

/// A file-backed video has the same header as the same video in memory.
pub proof fn law_file_header_matches(
    f: EncodedVideoFile,
    v: EncodedVideoView,
    audio: Option<AudioDataView>,
    json: Seq<char>,
)
    requires
        shim(f) == (EncodedVideoView { frames: Seq::empty(), ..v }),
        nats(f.sample_sizes@) == sizes_of(v.frames),
    ensures
        mp4_header(mp4_plan(shim(f), nats(f.sample_sizes@), audio, json)) == mp4_header(
            mp4_plan(v, sizes_of(v.frames), audio, json),
        ),
{
    let p = mp4_plan(shim(f), nats(f.sample_sizes@), audio, json);
    let q = mp4_plan(v, sizes_of(v.frames), audio, json);
    assert forall|x: int, y: int| moov(p, x, y) == #[trigger] moov(q, x, y) by {
        reveal(moov);
        assert(video_entry(p.video) == video_entry(q.video));
        assert(video_tables(p.video, p.count, p.video_sizes, x) == video_tables(
            q.video,
            q.count,
            q.video_sizes,
            x,
        ));
    }
    assert(media_offset(p) == media_offset(q));
}

/// Every MP4 file holds the JSON of its private metadata as one piece.
pub proof fn law_metadata_embedded(p: Mp4Plan, samples: Seq<u8>)
    ensures
        holds_piece(mp4_header(p) + samples, p.json),
{
    let none = Seq::<u8>::empty();
    reveal(moov);
    let data_payload = be32(1) + be32(0) + p.json;
    lemma_piece_self(p.json);
    lemma_piece_in_middle(be32(1) + be32(0), p.json, none, p.json);
    let full = seq![0u8] + be_bytes(0, 3) + data_payload;
    lemma_piece_in_middle(seq![0u8] + be_bytes(0, 3), data_payload, none, p.json);
    let data = versioned_box(text("data"@), 0, 0, data_payload);
    lemma_piece_in_middle(be32(full.len() as int + 8) + text("data"@), full, none, p.json);
    let comment = plain_box(comment_name(), data);
    lemma_piece_in_middle(be32(data.len() as int + 8) + comment_name(), data, none, p.json);
    let ilst = plain_box(text("ilst"@), comment);
    lemma_piece_in_middle(be32(comment.len() as int + 8) + text("ilst"@), comment, none, p.json);
    let meta_payload = hdlr("mdir"@, "candy"@) + ilst;
    lemma_piece_in_middle(hdlr("mdir"@, "candy"@), ilst, none, p.json);
    let meta_full = seq![0u8] + be_bytes(0, 3) + meta_payload;
    lemma_piece_in_middle(seq![0u8] + be_bytes(0, 3), meta_payload, none, p.json);
    let meta = versioned_box(text("meta"@), 0, 0, meta_payload);
    lemma_piece_in_middle(
        be32(meta_full.len() as int + 8) + text("meta"@),
        meta_full,
        none,
        p.json,
    );
    let udta = meta_udta(p.json);
    lemma_piece_in_middle(be32(meta.len() as int + 8) + text("udta"@), meta, none, p.json);
    let v_off = wrap32(media_offset(p)) as int;
    let a_off = wrap32(media_offset(p) + sum(p.video_sizes)) as int;
    let movie = placed_moov(p);
    let front = mvhd(
        p.total_ms,
        if p.audio_sizes.len() > 0 {
            3
        } else {
            2
        },
    ) + video_trak(p.video, p.count, p.video_sizes, p.total_ms, v_off) + audio_part(p, a_off);
    lemma_piece_in_middle(front, udta, none, p.json);
    lemma_piece_in_middle(
        be32((front + udta).len() as int + 8) + text("moov"@),
        front + udta,
        none,
        p.json,
    );
    lemma_piece_in_middle(
        ftyp(p.video.is_av1),
        movie,
        mdat_header(sum(p.video_sizes), sum(p.audio_sizes)),
        p.json,
    );
    lemma_piece_in_middle(none, mp4_header(p), samples, p.json);
}

/// The sizes that the header lists find every sample: the `i`-th frame lies behind the header
/// and the frames before it, over the length that the table gives for it.
pub proof fn law_sample_found(
    v: EncodedVideoView,
    audio: Option<AudioDataView>,
    json: Seq<char>,
    i: int,
)
    requires
        0 <= i < v.frames.len(),
        forall|j: int| 0 <= j < v.frames.len() ==> (#[trigger] v.frames[j]).len() < 0x1_0000_0000,
    ensures
        ({
            let sizes = sizes_of(v.frames);
            let p = mp4_plan(v, sizes, audio, json);
            let file = mp4_header(p) + concat(v.frames) + audio_bytes(audio);
            let start = media_offset(p) + sum(sizes.take(i));
            &&& start + sizes[i] <= file.len()
            &&& file.subrange(start, start + sizes[i]) == v.frames[i]
        }),
{
    let sizes = sizes_of(v.frames);
    let p = mp4_plan(v, sizes, audio, json);
    law_media_offset(p);
    lemma_sizes_sum(v.frames, i);
    lemma_frame_at(mp4_header(p), v.frames, audio_bytes(audio), i);
    assert(sizes[i] == v.frames[i].len());
}

/// Where a frame lies between other bytes.
proof fn lemma_frame_at(head: Seq<u8>, frames: Seq<Seq<u8>>, tail: Seq<u8>, i: int)
    requires
        0 <= i < frames.len(),
    ensures
        ({
            let file = head + concat(frames) + tail;
            let start = head.len() + concat(frames.take(i)).len();
            &&& start + frames[i].len() <= file.len()
            &&& file.subrange(start as int, (start + frames[i].len()) as int) == frames[i]
        }),
{
    lemma_concat_at(frames, i);
    let file = head + concat(frames) + tail;
    let k = concat(frames.take(i)).len() as int;
    let n = frames[i].len() as int;
    let start = head.len() + k;
    let inner = concat(frames).subrange(k, k + n);
    assert forall|x: int| 0 <= x < n implies file.subrange(start, start + n)[x] == #[trigger]
        frames[i][x] by {
        assert(inner[x] == frames[i][x]);
        assert(file[start + x] == concat(frames)[k + x]);
    }
    assert(file.subrange(start, start + n) =~= frames[i]);
}

proof fn lemma_sizes_sum(frames: Seq<Seq<u8>>, k: int)
    requires
        0 <= k <= frames.len(),
        forall|j: int| 0 <= j < frames.len() ==> (#[trigger] frames[j]).len() < 0x1_0000_0000,
    ensures
        sum(sizes_of(frames).take(k)) == concat(frames.take(k)).len(),
    decreases k,
{
    if k > 0 {
        lemma_sizes_sum(frames, k - 1);
        assert(sizes_of(frames).take(k).drop_last() =~= sizes_of(frames).take(k - 1));
        assert(frames.take(k).drop_last() =~= frames.take(k - 1));
        assert(frames[k - 1].len() < 0x1_0000_0000);
    }
}

/// A track that is not AAC leaves no trace in an MP4 file: the file is that of the video alone.
pub proof fn law_other_track_ignored(
    v: EncodedVideoView,
    sizes: Seq<nat>,
    a: AudioDataView,
    json: Seq<char>,
)
    requires
        a.codec != AudioCodec::Aac,
    ensures
        mp4_header(mp4_plan(v, sizes, Some(a), json)) == mp4_header(mp4_plan(v, sizes, None, json)),
        audio_bytes(Some(a)) == audio_bytes(None),
        mp4_ready(sizes.len(), v.fps, Some(a)) == mp4_ready(sizes.len(), v.fps, None),
        ignored(Some(a)) is Some,
{
    reveal(moov);
    let p = mp4_plan(v, sizes, Some(a), json);
    let q = mp4_plan(v, sizes, None, json);
    assert(p.audio_sizes =~= q.audio_sizes);
    assert(p.audio_durations =~= q.audio_durations);
    assert forall|x: int, y: int| moov(p, x, y) == #[trigger] moov(q, x, y) by {}
    assert(media_offset(p) == media_offset(q));
}

proof fn lemma_concat_len(parts: Seq<Seq<u8>>)
    requires
        forall|j: int| 0 <= j < parts.len() ==> (#[trigger] parts[j]).len() < 0x1_0000_0000,
    ensures
        concat(parts).len() == sum(sizes_of(parts)),
{
    lemma_sizes_sum(parts, parts.len() as int);
    assert(parts.take(parts.len() as int) =~= parts);
    assert(sizes_of(parts).take(parts.len() as int) =~= sizes_of(parts));
}

/// The media box is as long as it says: what follows its header are the samples and packets whose
/// sizes the tables list, and nothing else.
pub proof fn law_media_box_size(v: EncodedVideoView, audio: Option<AudioDataView>, json: Seq<char>)
    requires
        forall|j: int| 0 <= j < v.frames.len() ==> (#[trigger] v.frames[j]).len() < 0x1_0000_0000,
        audio matches Some(a) ==> forall|j: int|
            0 <= j < a.frames.len() ==> (#[trigger] a.frames[j]).data.len() < 0x1_0000_0000,
    ensures
        ({
            let p = mp4_plan(v, sizes_of(v.frames), audio, json);
            (concat(v.frames) + audio_bytes(audio)).len() == sum(p.video_sizes) + sum(p.audio_sizes)
        }),
{
    lemma_concat_len(v.frames);
    let p = mp4_plan(v, sizes_of(v.frames), audio, json);
    match audio {
        Some(a) => {
            if a.codec == AudioCodec::Aac {
                let parts = a.frames.map_values(|f: AudioFrameView| f.data);
                assert forall|j: int| 0 <= j < parts.len() implies (#[trigger] parts[j]).len()
                    < 0x1_0000_0000 by {
                    assert(parts[j] == a.frames[j].data);
                }
                lemma_concat_len(parts);
                assert(sizes_of(parts) =~= p.audio_sizes);
            }
        },
        None => {},
    }
}

} // verus!
