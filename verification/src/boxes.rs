//! How a player reads an MP4 file: boxes inside boxes, and the tables of the tracks.

use vstd::prelude::*;
use crate::audio::{AudioCodec, AudioDataView};
use crate::bytes::{
    be16, be32, be32_all, be_bytes, concat, lemma_be32_all_len, lemma_be_bytes_len, text, wrap32,
    zeros,
};
use crate::mp4::{
    audio_entry, audio_tables, audio_trak, dinf, esds_payload, ftyp, hdlr, law_media_offset, matrix,
    mdhd, meta_udta, moov, mp4_header, mp4_plan, mvhd, placed_moov, plain_box, smhd, stsd, stss,
    stts_entries, sum, tkhd, versioned_box, video_entry, video_tables, video_trak, vmhd, wide_mdhd,
    Mp4Plan,
};
use crate::video::EncodedVideoView;

verus! {

broadcast use lemma_be_bytes_len;

// ---------------------------------------------------------------- numbers

/// The number in four bytes, the most significant first.
pub open spec fn word(s: Seq<u8>, at: int) -> int {
    s[at] * 0x100_0000 + s[at + 1] * 0x1_0000 + s[at + 2] * 0x100 + s[at + 3]
}

/// The number in two bytes, the most significant first.
pub open spec fn half(s: Seq<u8>, at: int) -> int {
    s[at] * 0x100 + s[at + 1]
}

/// Numbers are written with their most significant byte first.
pub proof fn law_big_endian(v: int)
    ensures
        be16(v).len() == 2,
        half(be16(v), 0) == v % 0x1_0000,
        be32(v).len() == 4,
        word(be32(v), 0) == v % 0x1_0000_0000,
        be_bytes((v % 0x1_0000_0000) as nat, 8).len() == 8,
        word(be_bytes((v % 0x1_0000_0000) as nat, 8), 0) == 0,
        word(be_bytes((v % 0x1_0000_0000) as nat, 8), 4) == v % 0x1_0000_0000,
{
    reveal_with_fuel(be_bytes, 9);
    let h = v % 0x1_0000;
    assert(h / 256 < 256);
    let w = v % 0x1_0000_0000;
    assert(w / 256 / 256 / 256 < 256);
    assert(w / 256 / 256 / 256 / 256 == 0);
}

proof fn lemma_words(a: Seq<u8>, b: Seq<u8>, i: int)
    ensures
        0 <= i && i + 4 <= a.len() ==> word(a + b, i) == word(a, i),
        a.len() <= i && i + 4 <= a.len() + b.len() ==> word(a + b, i) == word(b, i - a.len()),
        0 <= i && i + 2 <= a.len() ==> half(a + b, i) == half(a, i),
        a.len() <= i && i + 2 <= a.len() + b.len() ==> half(a + b, i) == half(b, i - a.len()),
{
}

// ---------------------------------------------------------------- boxes

/// What the box number `k` of the given name holds, among boxes one after the other: each starts
/// with its length and its name.
#[verifier::opaque]
pub open spec fn find_box(s: Seq<u8>, name: Seq<u8>, k: nat) -> Option<Seq<u8>>
    decreases s.len(),
{
    if s.len() < 8 || word(s, 0) < 8 || word(s, 0) > s.len() {
        None
    } else if s.subrange(4, 8) == name && k == 0 {
        Some(s.subrange(8, word(s, 0)))
    } else {
        find_box(
            s.skip(word(s, 0)),
            name,
            if s.subrange(4, 8) == name {
                (k - 1) as nat
            } else {
                k
            },
        )
    }
}

#[verifier::rlimit(30)]
proof fn lemma_first_box(name: Seq<u8>, payload: Seq<u8>, rest: Seq<u8>, other: Seq<u8>, k: nat)
    requires
        name.len() == 4,
        payload.len() + 8 < 0x1_0000_0000,
    ensures
        ({
            let s = plain_box(name, payload) + rest;
            &&& find_box(s, name, 0) == Some(payload)
            &&& find_box(s, name, k + 1) == find_box(rest, name, k)
            &&& other != name ==> find_box(s, other, k) == find_box(rest, other, k)
        }),
{
    reveal(find_box);
    let s = plain_box(name, payload) + rest;
    let n = payload.len() as int + 8;
    law_big_endian(n);
    lemma_words(be32(n), name + payload + rest, 0);
    assert(s =~= be32(n) + (name + payload + rest));
    assert(word(s, 0) == n);
    assert(s.subrange(4, 8) =~= name);
    assert(s.subrange(8, n) =~= payload);
    assert(s.skip(n) =~= rest);
}

proof fn lemma_names()
    ensures
        text("ftyp"@).len() == 4,
        word(text("ftyp"@), 0) == 0x66747970,
        text("moov"@).len() == 4,
        word(text("moov"@), 0) == 0x6d6f6f76,
        text("mvhd"@).len() == 4,
        word(text("mvhd"@), 0) == 0x6d766864,
        text("trak"@).len() == 4,
        word(text("trak"@), 0) == 0x7472616b,
        text("udta"@).len() == 4,
        word(text("udta"@), 0) == 0x75647461,
        text("tkhd"@).len() == 4,
        word(text("tkhd"@), 0) == 0x746b6864,
        text("mdia"@).len() == 4,
        word(text("mdia"@), 0) == 0x6d646961,
        text("mdhd"@).len() == 4,
        word(text("mdhd"@), 0) == 0x6d646864,
        text("hdlr"@).len() == 4,
        word(text("hdlr"@), 0) == 0x68646c72,
        text("minf"@).len() == 4,
        word(text("minf"@), 0) == 0x6d696e66,
        text("vmhd"@).len() == 4,
        word(text("vmhd"@), 0) == 0x766d6864,
        text("smhd"@).len() == 4,
        word(text("smhd"@), 0) == 0x736d6864,
        text("dinf"@).len() == 4,
        word(text("dinf"@), 0) == 0x64696e66,
        text("stbl"@).len() == 4,
        word(text("stbl"@), 0) == 0x7374626c,
        text("stsd"@).len() == 4,
        word(text("stsd"@), 0) == 0x73747364,
        text("stts"@).len() == 4,
        word(text("stts"@), 0) == 0x73747473,
        text("stsc"@).len() == 4,
        word(text("stsc"@), 0) == 0x73747363,
        text("stss"@).len() == 4,
        word(text("stss"@), 0) == 0x73747373,
        text("stsz"@).len() == 4,
        word(text("stsz"@), 0) == 0x7374737a,
        text("stco"@).len() == 4,
        word(text("stco"@), 0) == 0x7374636f,
        text("avc1"@).len() == 4,
        word(text("avc1"@), 0) == 0x61766331,
        text("av01"@).len() == 4,
        word(text("av01"@), 0) == 0x61763031,
        text("avcC"@).len() == 4,
        word(text("avcC"@), 0) == 0x61766343,
        text("av1C"@).len() == 4,
        word(text("av1C"@), 0) == 0x61763143,
        text("mp4a"@).len() == 4,
        word(text("mp4a"@), 0) == 0x6d703461,
        text("esds"@).len() == 4,
        word(text("esds"@), 0) == 0x65736473,
{
    reveal_strlit("ftyp");
    vstd::utf8::is_ascii_chars_encode_utf8("ftyp"@);
    reveal_strlit("moov");
    vstd::utf8::is_ascii_chars_encode_utf8("moov"@);
    reveal_strlit("mvhd");
    vstd::utf8::is_ascii_chars_encode_utf8("mvhd"@);
    reveal_strlit("trak");
    vstd::utf8::is_ascii_chars_encode_utf8("trak"@);
    reveal_strlit("udta");
    vstd::utf8::is_ascii_chars_encode_utf8("udta"@);
    reveal_strlit("tkhd");
    vstd::utf8::is_ascii_chars_encode_utf8("tkhd"@);
    reveal_strlit("mdia");
    vstd::utf8::is_ascii_chars_encode_utf8("mdia"@);
    reveal_strlit("mdhd");
    vstd::utf8::is_ascii_chars_encode_utf8("mdhd"@);
    reveal_strlit("hdlr");
    vstd::utf8::is_ascii_chars_encode_utf8("hdlr"@);
    reveal_strlit("minf");
    vstd::utf8::is_ascii_chars_encode_utf8("minf"@);
    reveal_strlit("vmhd");
    vstd::utf8::is_ascii_chars_encode_utf8("vmhd"@);
    reveal_strlit("smhd");
    vstd::utf8::is_ascii_chars_encode_utf8("smhd"@);
    reveal_strlit("dinf");
    vstd::utf8::is_ascii_chars_encode_utf8("dinf"@);
    reveal_strlit("stbl");
    vstd::utf8::is_ascii_chars_encode_utf8("stbl"@);
    reveal_strlit("stsd");
    vstd::utf8::is_ascii_chars_encode_utf8("stsd"@);
    reveal_strlit("stts");
    vstd::utf8::is_ascii_chars_encode_utf8("stts"@);
    reveal_strlit("stsc");
    vstd::utf8::is_ascii_chars_encode_utf8("stsc"@);
    reveal_strlit("stss");
    vstd::utf8::is_ascii_chars_encode_utf8("stss"@);
    reveal_strlit("stsz");
    vstd::utf8::is_ascii_chars_encode_utf8("stsz"@);
    reveal_strlit("stco");
    vstd::utf8::is_ascii_chars_encode_utf8("stco"@);
    reveal_strlit("avc1");
    vstd::utf8::is_ascii_chars_encode_utf8("avc1"@);
    reveal_strlit("av01");
    vstd::utf8::is_ascii_chars_encode_utf8("av01"@);
    reveal_strlit("avcC");
    vstd::utf8::is_ascii_chars_encode_utf8("avcC"@);
    reveal_strlit("av1C");
    vstd::utf8::is_ascii_chars_encode_utf8("av1C"@);
    reveal_strlit("mp4a");
    vstd::utf8::is_ascii_chars_encode_utf8("mp4a"@);
    reveal_strlit("esds");
    vstd::utf8::is_ascii_chars_encode_utf8("esds"@);
}

/// What the first box of the given name inside another one holds.
pub open spec fn inner(b: Option<Seq<u8>>, name: Seq<char>) -> Option<Seq<u8>> {
    match b {
        Some(s) => find_box(s, text(name), 0),
        None => None,
    }
}

/// The description of track number `k` of a file.
pub open spec fn track_box(file: Seq<u8>, k: nat) -> Option<Seq<u8>> {
    match inner(Some(file), "moov"@) {
        Some(m) => find_box(m, text("trak"@), k),
        None => None,
    }
}

/// The media header of a track: its timescale and its duration.
pub open spec fn media_header(file: Seq<u8>, k: nat) -> Option<Seq<u8>> {
    inner(inner(track_box(file, k), "mdia"@), "mdhd"@)
}

/// A sample table of a track.
pub open spec fn sample_table(file: Seq<u8>, k: nat, name: Seq<char>) -> Option<Seq<u8>> {
    inner(inner(inner(inner(track_box(file, k), "mdia"@), "minf"@), "stbl"@), name)
}

// ---------------------------------------------------------------- structure

proof fn lemma_two(a: (Seq<u8>, Seq<u8>), b: (Seq<u8>, Seq<u8>))
    requires
        a.0.len() == 4,
        b.0.len() == 4,
        a.0 != b.0,
        a.1.len() + 8 < 0x1_0000_0000,
        b.1.len() + 8 < 0x1_0000_0000,
    ensures
        find_box(plain_box(a.0, a.1) + plain_box(b.0, b.1), a.0, 0) == Some(a.1),
        find_box(plain_box(a.0, a.1) + plain_box(b.0, b.1), b.0, 0) == Some(b.1),
{
    let none = Seq::<u8>::empty();
    lemma_first_box(a.0, a.1, plain_box(b.0, b.1), b.0, 0);
    lemma_first_box(b.0, b.1, none, b.0, 0);
    assert(plain_box(b.0, b.1) + none =~= plain_box(b.0, b.1));
}

proof fn lemma_three(
    a: (Seq<u8>, Seq<u8>),
    b: (Seq<u8>, Seq<u8>),
    c: (Seq<u8>, Seq<u8>),
    rest: Seq<u8>,
)
    requires
        a.0.len() == 4,
        b.0.len() == 4,
        c.0.len() == 4,
        a.0 != b.0,
        a.0 != c.0,
        b.0 != c.0,
        a.1.len() + 8 < 0x1_0000_0000,
        b.1.len() + 8 < 0x1_0000_0000,
        c.1.len() + 8 < 0x1_0000_0000,
    ensures
        ({
            let s = plain_box(a.0, a.1) + plain_box(b.0, b.1) + plain_box(c.0, c.1) + rest;
            &&& find_box(s, a.0, 0) == Some(a.1)
            &&& find_box(s, b.0, 0) == Some(b.1)
            &&& find_box(s, c.0, 0) == Some(c.1)
        }),
{
    let s = plain_box(a.0, a.1) + plain_box(b.0, b.1) + plain_box(c.0, c.1) + rest;
    let s1 = plain_box(b.0, b.1) + (plain_box(c.0, c.1) + rest);
    assert(s =~= plain_box(a.0, a.1) + s1);
    lemma_first_box(a.0, a.1, s1, b.0, 0);
    lemma_first_box(a.0, a.1, s1, c.0, 0);
    lemma_first_box(b.0, b.1, plain_box(c.0, c.1) + rest, c.0, 0);
    lemma_first_box(c.0, c.1, rest, c.0, 0);
}

/// What a box with a version holds.
spec fn versioned(version: u8, flags: nat, payload: Seq<u8>) -> Seq<u8> {
    seq![version] + be_bytes(flags, 3) + payload
}

/// What the description of a track holds.
spec fn trak_body(tk: Seq<u8>, md: Seq<u8>, hd: Seq<u8>, header: Seq<u8>, st: Seq<u8>) -> Seq<u8> {
    plain_box(text("tkhd"@), tk) + plain_box(
        text("mdia"@),
        plain_box(text("mdhd"@), md) + plain_box(text("hdlr"@), hd) + plain_box(
            text("minf"@),
            header + dinf() + plain_box(text("stbl"@), st),
        ),
    )
}

proof fn lemma_trak(
    tk: Seq<u8>,
    md: Seq<u8>,
    hd: Seq<u8>,
    kind: Seq<u8>,
    header: Seq<u8>,
    st: Seq<u8>,
)
    requires
        kind == text("vmhd"@) || kind == text("smhd"@),
        trak_body(tk, md, hd, plain_box(kind, header), st).len() < 0x1_0000_0000,
    ensures
        ({
            let s = Some(trak_body(tk, md, hd, plain_box(kind, header), st));
            let m = inner(s, "mdia"@);
            &&& inner(s, "tkhd"@) == Some(tk)
            &&& inner(m, "mdhd"@) == Some(md)
            &&& inner(m, "hdlr"@) == Some(hd)
            &&& inner(inner(m, "minf"@), "stbl"@) == Some(st)
        }),
{
    lemma_names();
    let h = plain_box(kind, header);
    let di = versioned(
        0,
        0,
        be32(1) + versioned_box(text("url "@), 0, 1, Seq::empty()),
    );
    let dr = plain_box(text("dref"@), di);
    assert(dinf() == plain_box(text("dinf"@), dr));
    let mi = h + dinf() + plain_box(text("stbl"@), st);
    let me = plain_box(text("mdhd"@), md) + plain_box(text("hdlr"@), hd) + plain_box(
        text("minf"@),
        mi,
    );
    let none = Seq::<u8>::empty();
    lemma_two((text("tkhd"@), tk), (text("mdia"@), me));
    lemma_three((text("mdhd"@), md), (text("hdlr"@), hd), (text("minf"@), mi), none);
    assert(me + none =~= me);
    lemma_three((kind, header), (text("dinf"@), dr), (text("stbl"@), st), none);
    assert(mi + none =~= mi);
}

/// What a header of a track holds.
#[verifier::opaque]
spec fn tkhd_body(id: int, duration: int, volume: int, width: int, height: int) -> Seq<u8> {
    tkhd(id, duration, volume, width, height).skip(8)
}

/// What a media header holds.
#[verifier::opaque]
spec fn mdhd_body(timescale: int, duration: int) -> Seq<u8> {
    mdhd(timescale, duration).skip(8)
}

/// What a wide media header holds.
#[verifier::opaque]
spec fn wide_body(timescale: int, duration: nat) -> Seq<u8> {
    wide_mdhd(timescale, duration).skip(8)
}

/// What a handler box holds.
#[verifier::opaque]
spec fn hdlr_body(kind: Seq<char>, name: Seq<char>) -> Seq<u8> {
    hdlr(kind, name).skip(8)
}

/// What a movie header holds.
#[verifier::opaque]
spec fn mvhd_body(total_ms: int, next: int) -> Seq<u8> {
    mvhd(total_ms, next).skip(8)
}

/// What the description of the video track holds.
#[verifier::opaque]
spec fn video_body(p: Mp4Plan, offset: int) -> Seq<u8> {
    trak_body(
        tkhd_body(1, p.total_ms, 0, p.video.width * 0x1_0000, p.video.height * 0x1_0000),
        mdhd_body(p.video.fps as int, p.count),
        hdlr_body("vide"@, "candy video"@),
        vmhd(),
        video_tables(p.video, p.count, p.video_sizes, offset),
    )
}

/// What the description of the audio track holds.
#[verifier::opaque]
spec fn audio_body(p: Mp4Plan, a: AudioDataView, offset: int) -> Seq<u8> {
    trak_body(
        tkhd_body(2, 0, 0x0100, 0, 0),
        wide_body(
            a.sample_rate as int,
            sum(p.audio_durations) % 0x1_0000_0000_0000_0000,
        ),
        hdlr_body("soun"@, "candy audio"@),
        smhd(),
        audio_tables(a, p.audio_sizes, p.audio_durations, offset),
    )
}

proof fn lemma_skip_header(name: Seq<u8>, payload: Seq<u8>)
    requires
        name.len() == 4,
    ensures
        plain_box(name, payload).skip(8) == payload,
        plain_box(name, payload).len() == payload.len() + 8,
{
    assert(plain_box(name, payload).skip(8) =~= payload);
}

proof fn lemma_versioned(name: Seq<u8>, version: u8, flags: nat, payload: Seq<u8>)
    requires
        name.len() == 4,
    ensures
        versioned_box(name, version, flags, payload) == plain_box(
            name,
            versioned_box(name, version, flags, payload).skip(8),
        ),
        versioned_box(name, version, flags, payload).skip(8) == versioned(version, flags, payload),
        versioned(version, flags, payload).len() == payload.len() + 4,
        versioned(version, flags, payload)[0] == version,
        forall|i: int|
            4 <= i < payload.len() + 4 ==> #[trigger] versioned(version, flags, payload)[i]
                == payload[i - 4],
{
    lemma_skip_header(name, versioned(version, flags, payload));
}

proof fn lemma_traks(p: Mp4Plan, offset: int)
    ensures
        video_trak(p.video, p.count, p.video_sizes, p.total_ms, offset) == plain_box(
            text("trak"@),
            video_body(p, offset),
        ),
        p.audio matches Some(a) ==> audio_trak(a, p.audio_sizes, p.audio_durations, offset)
            == plain_box(text("trak"@), audio_body(p, a, offset)),
{
    lemma_names();
    reveal(video_body);
    reveal(audio_body);
    reveal(tkhd_body);
    reveal(mdhd_body);
    reveal(wide_body);
    reveal(hdlr_body);
    let v = p.video;
    lemma_versioned(
        text("tkhd"@),
        0,
        7,
        be32(0) + be32(0) + be32(1) + be32(0) + be32(p.total_ms) + zeros(8) + be16(0) + be16(0)
            + be16(0) + be16(0) + matrix() + be32(v.width * 0x1_0000) + be32(v.height * 0x1_0000),
    );
    lemma_versioned(
        text("mdhd"@),
        0,
        0,
        be32(0) + be32(0) + be32(v.fps as int) + be32(p.count) + be16(0x55C4) + be16(0),
    );
    lemma_versioned(
        text("hdlr"@),
        0,
        0,
        be32(0) + text("vide"@) + zeros(12) + text("candy video"@) + zeros(1),
    );
    if let Some(a) = p.audio {
        lemma_versioned(
            text("tkhd"@),
            0,
            7,
            be32(0) + be32(0) + be32(2) + be32(0) + be32(0) + zeros(8) + be16(0) + be16(0) + be16(
                0x0100,
            ) + be16(0) + matrix() + be32(0) + be32(0),
        );
        lemma_versioned(
            text("mdhd"@),
            1,
            0,
            zeros(8) + zeros(8) + be32(a.sample_rate as int) + be_bytes(
                sum(p.audio_durations) % 0x1_0000_0000_0000_0000,
                8,
            ) + be16(0x55C4) + be16(0),
        );
        lemma_versioned(
            text("hdlr"@),
            0,
            0,
            be32(0) + text("soun"@) + zeros(12) + text("candy audio"@) + zeros(1),
        );
    }
}

/// Where the video and the audio of a planned file lie.
spec fn offsets(p: Mp4Plan) -> (int, int) {
    (
        wrap32(crate::mp4::media_offset(p)) as int,
        wrap32(crate::mp4::media_offset(p) + sum(p.video_sizes)) as int,
    )
}

/// What the movie box holds.
spec fn movie(mv: Seq<u8>, video: Seq<u8>, sound: Option<Seq<u8>>, note: Seq<u8>) -> Seq<u8> {
    plain_box(text("mvhd"@), mv) + plain_box(text("trak"@), video) + (match sound {
        Some(a) => plain_box(text("trak"@), a),
        None => Seq::empty(),
    }) + plain_box(text("udta"@), note)
}

proof fn lemma_movie(mv: Seq<u8>, video: Seq<u8>, sound: Option<Seq<u8>>, note: Seq<u8>)
    requires
        movie(mv, video, sound, note).len() < 0x1_0000_0000,
    ensures
        ({
            let m = movie(mv, video, sound, note);
            &&& find_box(m, text("mvhd"@), 0) == Some(mv)
            &&& find_box(m, text("trak"@), 0) == Some(video)
            &&& find_box(m, text("trak"@), 1) == sound
            &&& video.len() < 0x1_0000_0000
            &&& sound matches Some(a) ==> a.len() < 0x1_0000_0000
        }),
{
    lemma_names();
    let none = Seq::<u8>::empty();
    let m = movie(mv, video, sound, note);
    let u = plain_box(text("udta"@), note);
    let v = plain_box(text("trak"@), video);
    let s = match sound {
        Some(a) => plain_box(text("trak"@), a),
        None => none,
    };
    lemma_skip_header(text("mvhd"@), mv);
    lemma_skip_header(text("trak"@), video);
    lemma_skip_header(text("udta"@), note);
    assert(m =~= plain_box(text("mvhd"@), mv) + (v + (s + u)));
    lemma_first_box(text("mvhd"@), mv, v + (s + u), text("trak"@), 0);
    lemma_first_box(text("mvhd"@), mv, v + (s + u), text("trak"@), 1);
    lemma_first_box(text("trak"@), video, s + u, text("trak"@), 0);
    assert(u + none =~= u);
    lemma_first_box(text("udta"@), note, none, text("trak"@), 0);
    assert(find_box(none, text("trak"@), 0) is None) by {
        reveal(find_box);
    }
    match sound {
        Some(a) => {
            lemma_skip_header(text("trak"@), a);
            lemma_first_box(text("trak"@), a, u, text("trak"@), 0);
        },
        None => {
            assert(s + u =~= u);
        },
    }
}

proof fn lemma_moov(p: Mp4Plan)
    ensures
        placed_moov(p) == plain_box(text("moov"@), moov_body(p)),
{
    lemma_names();
    reveal(moov);
    reveal(mvhd_body);
    let (vo, ao) = offsets(p);
    let next: int = if p.audio_sizes.len() > 0 {
        3
    } else {
        2
    };
    lemma_versioned(
        text("mvhd"@),
        0,
        0,
        be32(0) + be32(0) + be32(1000) + be32(p.total_ms) + be32(0x1_0000) + be16(0x0100) + zeros(
            10,
        ) + matrix() + zeros(24) + be32(next),
    );
    lemma_traks(p, vo);
    lemma_traks(p, ao);
    lemma_udta(p.json);
}

/// What the movie box of a planned file holds.
spec fn moov_body(p: Mp4Plan) -> Seq<u8> {
    let (vo, ao) = offsets(p);
    movie(
        mvhd_body(
            p.total_ms,
            if p.audio_sizes.len() > 0 {
                3
            } else {
                2
            },
        ),
        video_body(p, vo),
        match p.audio {
            Some(a) if p.audio_sizes.len() > 0 => Some(audio_body(p, a, ao)),
            _ => None,
        },
        meta_udta(p.json).skip(8),
    )
}

#[verifier::rlimit(30)]
proof fn lemma_file(p: Mp4Plan, media: Seq<u8>)
    requires
        mp4_header(p).len() + media.len() < 0x1_0000_0000,
    ensures
        ({
            let file = mp4_header(p) + media;
            let (vo, ao) = offsets(p);
            &&& track_box(file, 0) == Some(video_body(p, vo))
            &&& video_body(p, vo).len() < 0x1_0000_0000
            &&& p.audio matches Some(a) ==> (p.audio_sizes.len() > 0 ==> track_box(file, 1) == Some(
                audio_body(p, a, ao),
            ) && audio_body(p, a, ao).len() < 0x1_0000_0000)
            &&& p.audio is None || p.audio_sizes.len() == 0 ==> track_box(file, 1) is None
            &&& inner(inner(Some(file), "moov"@), "mvhd"@) == Some(
                mvhd_body(
                    p.total_ms,
                    if p.audio_sizes.len() > 0 {
                        3
                    } else {
                        2
                    },
                ),
            )
        }),
{
    reveal(ftyp);
    let kinds = text("isom"@) + zeros(4) + text("isom"@) + (if p.video.is_av1 {
        text("av01"@)
    } else {
        text("avc1"@)
    }) + text("mp42"@) + text("mmp4"@);
    lemma_moov(p);
    let tail = crate::mp4::mdat_header(sum(p.video_sizes), sum(p.audio_sizes)) + media;
    let (vo, ao) = offsets(p);
    let next: int = if p.audio_sizes.len() > 0 {
        3
    } else {
        2
    };
    let mv = mvhd_body(p.total_ms, next);
    let sound = match p.audio {
        Some(a) if p.audio_sizes.len() > 0 => Some(audio_body(p, a, ao)),
        _ => None,
    };
    let note = meta_udta(p.json).skip(8);
    lemma_joined(ftyp(p.video.is_av1), placed_moov(p), tail, media, p);
    lemma_whole(kinds, mv, video_body(p, vo), sound, note, tail);
}

proof fn lemma_joined(a: Seq<u8>, b: Seq<u8>, tail: Seq<u8>, media: Seq<u8>, p: Mp4Plan)
    requires
        a == ftyp(p.video.is_av1),
        b == placed_moov(p),
        tail == crate::mp4::mdat_header(sum(p.video_sizes), sum(p.audio_sizes)) + media,
    ensures
        mp4_header(p) + media == a + b + tail,
{
    let m = crate::mp4::mdat_header(sum(p.video_sizes), sum(p.audio_sizes));
    assert(mp4_header(p) == a + b + m);
    assert(a + b + m + media =~= a + b + (m + media));
}

proof fn lemma_whole(
    kinds: Seq<u8>,
    mv: Seq<u8>,
    video: Seq<u8>,
    sound: Option<Seq<u8>>,
    note: Seq<u8>,
    tail: Seq<u8>,
)
    requires
        (plain_box(text("ftyp"@), kinds) + plain_box(text("moov"@), movie(mv, video, sound, note))
            + tail).len() < 0x1_0000_0000,
    ensures
        ({
            let file = plain_box(text("ftyp"@), kinds) + plain_box(
                text("moov"@),
                movie(mv, video, sound, note),
            ) + tail;
            &&& track_box(file, 0) == Some(video)
            &&& track_box(file, 1) == sound
            &&& inner(inner(Some(file), "moov"@), "mvhd"@) == Some(mv)
            &&& video.len() < 0x1_0000_0000
            &&& sound matches Some(a) ==> a.len() < 0x1_0000_0000
        }),
{
    lemma_names();
    let body = movie(mv, video, sound, note);
    let f = plain_box(text("ftyp"@), kinds);
    let m = plain_box(text("moov"@), body);
    assert(f + m + tail =~= f + (m + tail));
    lemma_skip_header(text("ftyp"@), kinds);
    lemma_skip_header(text("moov"@), body);
    lemma_first_box(text("ftyp"@), kinds, m + tail, text("moov"@), 0);
    lemma_first_box(text("moov"@), body, tail, text("moov"@), 0);
    lemma_movie(mv, video, sound, note);
}

proof fn lemma_udta(json: Seq<u8>)
    ensures
        meta_udta(json) == plain_box(text("udta"@), meta_udta(json).skip(8)),
        meta_udta(json).len() == meta_udta(json).skip(8).len() + 8,
{
    lemma_names();
    let inside = versioned_box(
        text("meta"@),
        0,
        0,
        hdlr("mdir"@, "candy"@) + plain_box(
            text("ilst"@),
            plain_box(
                crate::mp4::comment_name(),
                versioned_box(text("data"@), 0, 0, be32(1) + be32(0) + json),
            ),
        ),
    );
    lemma_skip_header(text("udta"@), inside);
}

// ---------------------------------------------------------------- tables

proof fn lemma_six(
    a: (Seq<u8>, Seq<u8>),
    b: (Seq<u8>, Seq<u8>),
    c: (Seq<u8>, Seq<u8>),
    d: (Seq<u8>, Seq<u8>),
    e: (Seq<u8>, Seq<u8>),
    f: (Seq<u8>, Seq<u8>),
)
    requires
        a.0.len() == 4 && a.1.len() + 8 < 0x1_0000_0000,
        b.0.len() == 4 && b.1.len() + 8 < 0x1_0000_0000,
        c.0.len() == 4 && c.1.len() + 8 < 0x1_0000_0000,
        d.0.len() == 4 && d.1.len() + 8 < 0x1_0000_0000,
        e.0.len() == 4 && e.1.len() + 8 < 0x1_0000_0000,
        f.0.len() == 4 && f.1.len() + 8 < 0x1_0000_0000,
        b.0 != a.0,
        c.0 != a.0 && c.0 != b.0,
        d.0 != a.0 && d.0 != b.0 && d.0 != c.0,
        e.0 != a.0 && e.0 != b.0 && e.0 != c.0 && e.0 != d.0,
        f.0 != a.0 && f.0 != b.0 && f.0 != c.0 && f.0 != d.0 && f.0 != e.0,
    ensures
        ({
            let s = plain_box(a.0, a.1) + plain_box(b.0, b.1) + plain_box(c.0, c.1) + plain_box(
                d.0,
                d.1,
            ) + plain_box(e.0, e.1) + plain_box(f.0, f.1);
            &&& find_box(s, a.0, 0) == Some(a.1)
            &&& find_box(s, b.0, 0) == Some(b.1)
            &&& find_box(s, c.0, 0) == Some(c.1)
            &&& find_box(s, d.0, 0) == Some(d.1)
            &&& find_box(s, e.0, 0) == Some(e.1)
            &&& find_box(s, f.0, 0) == Some(f.1)
        }),
{
    let none = Seq::<u8>::empty();
    let last = plain_box(f.0, f.1) + none;
    let t4 = plain_box(e.0, e.1) + last;
    let t3 = plain_box(d.0, d.1) + t4;
    let s = plain_box(a.0, a.1) + plain_box(b.0, b.1) + plain_box(c.0, c.1) + plain_box(d.0, d.1)
        + plain_box(e.0, e.1) + plain_box(f.0, f.1);
    assert(s =~= plain_box(a.0, a.1) + plain_box(b.0, b.1) + plain_box(c.0, c.1) + t3);
    lemma_three(a, b, c, t3);
    let t1 = plain_box(b.0, b.1) + (plain_box(c.0, c.1) + t3);
    assert(s =~= plain_box(a.0, a.1) + t1);
    assert(t3 =~= plain_box(d.0, d.1) + plain_box(e.0, e.1) + plain_box(f.0, f.1) + none);
    lemma_three(d, e, f, none);
    lemma_past(a, b, c, t3, d.0);
    lemma_past(a, b, c, t3, e.0);
    lemma_past(a, b, c, t3, f.0);
}

proof fn lemma_past(
    a: (Seq<u8>, Seq<u8>),
    b: (Seq<u8>, Seq<u8>),
    c: (Seq<u8>, Seq<u8>),
    rest: Seq<u8>,
    name: Seq<u8>,
)
    requires
        a.0.len() == 4 && a.1.len() + 8 < 0x1_0000_0000,
        b.0.len() == 4 && b.1.len() + 8 < 0x1_0000_0000,
        c.0.len() == 4 && c.1.len() + 8 < 0x1_0000_0000,
        name != a.0 && name != b.0 && name != c.0,
    ensures
        find_box(
            plain_box(a.0, a.1) + plain_box(b.0, b.1) + plain_box(c.0, c.1) + rest,
            name,
            0,
        ) == find_box(rest, name, 0),
{
    let s = plain_box(a.0, a.1) + plain_box(b.0, b.1) + plain_box(c.0, c.1) + rest;
    let s1 = plain_box(b.0, b.1) + (plain_box(c.0, c.1) + rest);
    assert(s =~= plain_box(a.0, a.1) + s1);
    lemma_first_box(a.0, a.1, s1, name, 0);
    lemma_first_box(b.0, b.1, plain_box(c.0, c.1) + rest, name, 0);
    lemma_first_box(c.0, c.1, rest, name, 0);
}

/// What the tables of a track hold.
#[verifier::opaque]
spec fn stsd_body(entry: Seq<u8>) -> Seq<u8> {
    versioned(0, 0, be32(1) + entry)
}

#[verifier::opaque]
spec fn stts_body(n: int) -> Seq<u8> {
    versioned(0, 0, be32(1) + be32(n) + be32(1))
}

#[verifier::opaque]
spec fn sound_times(durs: Seq<nat>) -> Seq<u8> {
    versioned(0, 0, be32(durs.len() as int) + stts_entries(durs))
}

#[verifier::opaque]
spec fn stsc_body(n: int) -> Seq<u8> {
    versioned(0, 0, be32(1) + be32(1) + be32(n) + be32(1))
}

#[verifier::opaque]
spec fn stss_body(keyframes: Seq<bool>) -> Seq<u8> {
    stss(keyframes).skip(8)
}

#[verifier::opaque]
spec fn stsz_body(n: int, sizes: Seq<nat>) -> Seq<u8> {
    versioned(0, 0, be32(0) + be32(n) + be32_all(sizes))
}

#[verifier::opaque]
spec fn stco_body(offset: int) -> Seq<u8> {
    versioned(0, 0, be32(1) + be32(offset))
}

proof fn lemma_video_tables(v: EncodedVideoView, n: int, sizes: Seq<nat>, offset: int)
    requires
        video_tables(v, n, sizes, offset).len() < 0x1_0000_0000,
    ensures
        ({
            let s = Some(video_tables(v, n, sizes, offset));
            &&& inner(s, "stsd"@) == Some(stsd_body(video_entry(v)))
            &&& inner(s, "stts"@) == Some(stts_body(n))
            &&& inner(s, "stsc"@) == Some(stsc_body(n))
            &&& inner(s, "stss"@) == Some(stss_body(v.keyframes))
            &&& inner(s, "stsz"@) == Some(stsz_body(n, sizes))
            &&& inner(s, "stco"@) == Some(stco_body(offset))
        }),
{
    lemma_names();
    reveal(stsd_body);
    reveal(stts_body);
    reveal(stsc_body);
    reveal(stss_body);
    reveal(stsz_body);
    reveal(stco_body);
    reveal(sound_times);
    let table = crate::mp4::sync_table(v.keyframes);
    let ss = be32(table.len() as int) + be32_all(table);
    lemma_versioned(text("stsd"@), 0, 0, be32(1) + video_entry(v));
    lemma_versioned(text("stts"@), 0, 0, be32(1) + be32(n) + be32(1));
    lemma_versioned(text("stsc"@), 0, 0, be32(1) + be32(1) + be32(n) + be32(1));
    lemma_versioned(text("stss"@), 0, 0, ss);
    lemma_versioned(text("stsz"@), 0, 0, be32(0) + be32(n) + be32_all(sizes));
    lemma_versioned(text("stco"@), 0, 0, be32(1) + be32(offset));
    lemma_six(
        (text("stsd"@), versioned(0, 0, be32(1) + video_entry(v))),
        (text("stts"@), versioned(0, 0, be32(1) + be32(n) + be32(1))),
        (text("stsc"@), versioned(0, 0, be32(1) + be32(1) + be32(n) + be32(1))),
        (text("stss"@), versioned(0, 0, ss)),
        (text("stsz"@), versioned(0, 0, be32(0) + be32(n) + be32_all(sizes))),
        (text("stco"@), versioned(0, 0, be32(1) + be32(offset))),
    );
}

proof fn lemma_audio_tables(a: AudioDataView, sizes: Seq<nat>, durs: Seq<nat>, offset: int)
    requires
        audio_tables(a, sizes, durs, offset).len() < 0x1_0000_0000,
    ensures
        ({
            let s = Some(audio_tables(a, sizes, durs, offset));
            let n = sizes.len() as int;
            &&& inner(s, "stsd"@) == Some(stsd_body(audio_entry(a)))
            &&& inner(s, "stts"@) == Some(sound_times(durs))
            &&& inner(s, "stsc"@) == Some(stsc_body(n))
            &&& inner(s, "stsz"@) == Some(stsz_body(n, sizes))
            &&& inner(s, "stco"@) == Some(stco_body(offset))
        }),
{
    lemma_names();
    reveal(stsd_body);
    reveal(stts_body);
    reveal(stsc_body);
    reveal(stss_body);
    reveal(stsz_body);
    reveal(stco_body);
    reveal(sound_times);
    let n = sizes.len() as int;
    let st = be32(durs.len() as int) + stts_entries(durs);
    let s = audio_tables(a, sizes, durs, offset);
    lemma_versioned(text("stsd"@), 0, 0, be32(1) + audio_entry(a));
    lemma_versioned(text("stts"@), 0, 0, st);
    lemma_versioned(text("stsc"@), 0, 0, be32(1) + be32(1) + be32(n) + be32(1));
    lemma_versioned(text("stsz"@), 0, 0, be32(0) + be32(n) + be32_all(sizes));
    lemma_versioned(text("stco"@), 0, 0, be32(1) + be32(offset));
    let x = (text("stsd"@), versioned(0, 0, be32(1) + audio_entry(a)));
    let y = (text("stts"@), versioned(0, 0, st));
    let z = (text("stsc"@), versioned(0, 0, be32(1) + be32(1) + be32(n) + be32(1)));
    let u = (text("stsz"@), versioned(0, 0, be32(0) + be32(n) + be32_all(sizes)));
    let w = (text("stco"@), versioned(0, 0, be32(1) + be32(offset)));
    let rest = plain_box(u.0, u.1) + plain_box(w.0, w.1);
    assert(s =~= plain_box(x.0, x.1) + plain_box(y.0, y.1) + plain_box(z.0, z.1) + rest);
    lemma_three(x, y, z, rest);
    lemma_two(u, w);
    lemma_past(x, y, z, rest, u.0);
    lemma_past(x, y, z, rest, w.0);
}

// ---------------------------------------------------------------- what a player reads

/// Whether a file is a planned one with its media data.
#[verifier::opaque]
pub open spec fn is_file(
    file: Seq<u8>,
    v: EncodedVideoView,
    sizes: Seq<nat>,
    audio: Option<AudioDataView>,
    json: Seq<char>,
) -> bool {
    let header = mp4_header(mp4_plan(v, sizes, audio, json));
    &&& header.len() <= file.len() < 0x1_0000_0000
    &&& file.take(header.len() as int) == header
    &&& v.fps > 0
    &&& 0 < sizes.len() < 0x1_0000_0000
}

/// The number of ticks of the timescale that the first `i` samples last, by a time-to-sample table
/// from entry `e` on: each entry gives a number of samples and how long each of them lasts.
pub open spec fn ticks(t: Seq<u8>, e: int, i: int) -> int
    decreases word(t, 4) - e,
{
    if e < 0 || e >= word(t, 4) || i <= 0 {
        0
    } else if i <= word(t, 8 + 8 * e) {
        i * word(t, 12 + 8 * e)
    } else {
        word(t, 8 + 8 * e) * word(t, 12 + 8 * e) + ticks(t, e + 1, i - word(t, 8 + 8 * e))
    }
}

#[verifier::rlimit(30)]
proof fn lemma_reading(
    file: Seq<u8>,
    v: EncodedVideoView,
    sizes: Seq<nat>,
    audio: Option<AudioDataView>,
    json: Seq<char>,
)
    requires
        is_file(file, v, sizes, audio, json),
    ensures
        ({
            let p = mp4_plan(v, sizes, audio, json);
            let (vo, ao) = offsets(p);
            let n = sizes.len() as int;
            &&& v.fps > 0 && 0 < n < 0x1_0000_0000
            &&& p.count == n
            &&& track_box(file, 0) == Some(video_body(p, vo))
            &&& inner(track_box(file, 0), "tkhd"@) == Some(
                tkhd_body(1, p.total_ms, 0, v.width * 0x1_0000, v.height * 0x1_0000),
            )
            &&& media_header(file, 0) == Some(mdhd_body(v.fps as int, n))
            &&& inner(inner(track_box(file, 0), "mdia"@), "hdlr"@) == Some(
                hdlr_body("vide"@, "candy video"@),
            )
            &&& sample_table(file, 0, "stsd"@) == Some(stsd_body(video_entry(v)))
            &&& sample_table(file, 0, "stts"@) == Some(stts_body(n))
            &&& sample_table(file, 0, "stsc"@) == Some(stsc_body(n))
            &&& sample_table(file, 0, "stss"@) == Some(stss_body(v.keyframes))
            &&& sample_table(file, 0, "stsz"@) == Some(stsz_body(n, sizes))
            &&& sample_table(file, 0, "stco"@) == Some(stco_body(vo))
            &&& inner(inner(Some(file), "moov"@), "mvhd"@) == Some(
                mvhd_body(
                    p.total_ms,
                    if p.audio_sizes.len() > 0 {
                        3
                    } else {
                        2
                    },
                ),
            )
            &&& vo == mp4_header(p).len()
        }),
{
    reveal(is_file);
    let p = mp4_plan(v, sizes, audio, json);
    let (vo, ao) = offsets(p);
    let n = sizes.len() as int;
    let header = mp4_header(p);
    let media = file.skip(header.len() as int);
    assert(file =~= header + media);
    lemma_file(p, media);
    law_media_offset(p);
    assert(p.count == n);
    lemma_video_track(p, vo);
}

#[verifier::rlimit(30)]
proof fn lemma_video_track(p: Mp4Plan, vo: int)
    requires
        video_body(p, vo).len() < 0x1_0000_0000,
    ensures
        ({
            let v = p.video;
            let t = Some(video_body(p, vo));
            let m = inner(t, "mdia"@);
            let st = inner(inner(m, "minf"@), "stbl"@);
            &&& inner(t, "tkhd"@) == Some(
                tkhd_body(1, p.total_ms, 0, v.width * 0x1_0000, v.height * 0x1_0000),
            )
            &&& inner(m, "mdhd"@) == Some(mdhd_body(v.fps as int, p.count))
            &&& inner(m, "hdlr"@) == Some(hdlr_body("vide"@, "candy video"@))
            &&& inner(st, "stsd"@) == Some(stsd_body(video_entry(v)))
            &&& inner(st, "stts"@) == Some(stts_body(p.count))
            &&& inner(st, "stsc"@) == Some(stsc_body(p.count))
            &&& inner(st, "stss"@) == Some(stss_body(v.keyframes))
            &&& inner(st, "stsz"@) == Some(stsz_body(p.count, p.video_sizes))
            &&& inner(st, "stco"@) == Some(stco_body(vo))
        }),
{
    lemma_names();
    reveal(video_body);
    let v = p.video;
    let h = versioned(0, 1, be16(0) + zeros(6));
    lemma_versioned(text("vmhd"@), 0, 1, be16(0) + zeros(6));
    let tables = video_tables(v, p.count, p.video_sizes, vo);
    lemma_inside(
        tkhd_body(1, p.total_ms, 0, v.width * 0x1_0000, v.height * 0x1_0000),
        mdhd_body(v.fps as int, p.count),
        hdlr_body("vide"@, "candy video"@),
        vmhd(),
        tables,
    );
    lemma_trak(
        tkhd_body(1, p.total_ms, 0, v.width * 0x1_0000, v.height * 0x1_0000),
        mdhd_body(v.fps as int, p.count),
        hdlr_body("vide"@, "candy video"@),
        text("vmhd"@),
        h,
        tables,
    );
    lemma_video_tables(v, p.count, p.video_sizes, vo);
}

proof fn lemma_inside(tk: Seq<u8>, md: Seq<u8>, hd: Seq<u8>, header: Seq<u8>, st: Seq<u8>)
    ensures
        st.len() <= trak_body(tk, md, hd, header, st).len(),
{
}

proof fn lemma_word_at(front: Seq<u8>, v: int, back: Seq<u8>)
    ensures
        word(front + be32(v) + back, front.len() as int) == v % 0x1_0000_0000,
{
    law_big_endian(v);
    let s = front + be32(v) + back;
    let n = front.len() as int;
    assert(s[n] == be32(v)[0] && s[n + 1] == be32(v)[1] && s[n + 2] == be32(v)[2] && s[n + 3]
        == be32(v)[3]);
}

proof fn lemma_half_at(front: Seq<u8>, v: int, back: Seq<u8>)
    ensures
        half(front + be16(v) + back, front.len() as int) == v % 0x1_0000,
{
    law_big_endian(v);
    let s = front + be16(v) + back;
    let n = front.len() as int;
    assert(s[n] == be16(v)[0] && s[n + 1] == be16(v)[1]);
}

proof fn lemma_mdhd(timescale: int, duration: int)
    ensures
        ({
            let h = mdhd_body(timescale, duration);
            &&& h.len() == 24
            &&& h[0] == 0
            &&& word(h, 12) == timescale % 0x1_0000_0000
            &&& word(h, 16) == duration % 0x1_0000_0000
        }),
{
    lemma_names();
    reveal(mdhd_body);
    let x = be32(0) + be32(0) + be32(timescale) + be32(duration) + be16(0x55C4) + be16(0);
    lemma_versioned(text("mdhd"@), 0, 0, x);
    let h = versioned(0, 0, x);
    let a = seq![0u8] + be_bytes(0, 3) + be32(0) + be32(0);
    let b = be32(duration) + be16(0x55C4) + be16(0);
    assert(h =~= a + be32(timescale) + b);
    lemma_word_at(a, timescale, b);
    let c = a + be32(timescale);
    let d = be16(0x55C4) + be16(0);
    assert(h =~= c + be32(duration) + d);
    lemma_word_at(c, duration, d);
}

proof fn lemma_stts(n: int)
    requires
        0 <= n < 0x1_0000_0000,
    ensures
        ({
            let t = stts_body(n);
            word(t, 4) == 1 && word(t, 8) == n && word(t, 12) == 1
        }),
{
    reveal(stts_body);
    let t = versioned(0, 0, be32(1) + be32(n) + be32(1));
    let a = seq![0u8] + be_bytes(0, 3);
    assert(t =~= a + be32(1) + (be32(n) + be32(1)));
    lemma_word_at(a, 1, be32(n) + be32(1));
    assert(t =~= (a + be32(1)) + be32(n) + be32(1));
    lemma_word_at(a + be32(1), n, be32(1));
    assert(t =~= (a + be32(1) + be32(n)) + be32(1) + Seq::<u8>::empty());
    lemma_word_at(a + be32(1) + be32(n), 1, Seq::empty());
    assert(word(t, 4) == 1 && word(t, 8) == n && word(t, 12) == 1);
}

/// The frames of a video are shown evenly: by the time-to-sample table and the timescale of its
/// track, frame i starts i / fps seconds after the beginning, and all frames together last as long
/// as the media header says.
#[verifier::rlimit(30)]
pub proof fn law_video_timing(
    file: Seq<u8>,
    v: EncodedVideoView,
    sizes: Seq<nat>,
    audio: Option<AudioDataView>,
    json: Seq<char>,
)
    requires
        is_file(file, v, sizes, audio, json),
    ensures
        media_header(file, 0) matches Some(h) && (sample_table(file, 0, "stts"@) matches Some(t) && {
            let n = sizes.len() as int;
            let timescale = word(h, 12);
            &&& h[0] == 0
            &&& timescale > 0
            &&& ticks(t, 0, n) == word(h, 16)
            &&& forall|i: int| 0 <= i <= n ==> #[trigger] ticks(t, 0, i) * v.fps == i * timescale
        }),
{
    lemma_reading(file, v, sizes, audio, json);
    let n = sizes.len() as int;
    lemma_mdhd(v.fps as int, n);
    lemma_stts(n);
    let t = stts_body(n);
    assert forall|i: int| 0 <= i <= n implies #[trigger] ticks(t, 0, i) == i by {
        reveal_with_fuel(ticks, 2);
    }
    assert forall|i: int| 0 <= i <= n implies #[trigger] ticks(t, 0, i) * v.fps == i * (
    v.fps as int) by {}
}

/// A whole movie lasts as many milliseconds as its frames do, and so does its video track.
#[verifier::rlimit(30)]
pub proof fn law_movie_duration(
    file: Seq<u8>,
    v: EncodedVideoView,
    sizes: Seq<nat>,
    audio: Option<AudioDataView>,
    json: Seq<char>,
)
    requires
        is_file(file, v, sizes, audio, json),
        sizes.len() * 1000 < 0x1_0000_0000,
    ensures
        inner(inner(Some(file), "moov"@), "mvhd"@) matches Some(h) && {
            let ms = word(h, 16);
            &&& word(h, 12) == 1000
            &&& ms * v.fps <= sizes.len() * 1000 < (ms + 1) * v.fps
            &&& inner(track_box(file, 0), "tkhd"@) matches Some(k) && word(k, 20) == ms
        },
{
    lemma_reading(file, v, sizes, audio, json);
    let p = mp4_plan(v, sizes, audio, json);
    let next: int = if p.audio_sizes.len() > 0 {
        3
    } else {
        2
    };
    let ms = p.total_ms;
    let fps = v.fps as int;
    let total = sizes.len() as int * 1000;
    assert(ms == total / fps);
    assert(total / fps * fps <= total < (total / fps + 1) * fps && 0 <= total / fps <= total)
        by (nonlinear_arith)
        requires
            fps > 0,
            total >= 0,
    ;
    lemma_mvhd(ms, next);
    lemma_tkhd(1, ms, 0, v.width * 0x1_0000, v.height * 0x1_0000);
}

proof fn lemma_mvhd(ms: int, next: int)
    ensures
        word(mvhd_body(ms, next), 12) == 1000,
        word(mvhd_body(ms, next), 16) == ms % 0x1_0000_0000,
{
    lemma_names();
    reveal(mvhd_body);
    let x = be32(0) + be32(0) + be32(1000) + be32(ms) + be32(0x1_0000) + be16(0x0100) + zeros(10)
        + matrix() + zeros(24) + be32(next);
    lemma_versioned(text("mvhd"@), 0, 0, x);
    let h = versioned(0, 0, x);
    let a = seq![0u8] + be_bytes(0, 3) + be32(0) + be32(0);
    let b = be32(0x1_0000) + be16(0x0100) + zeros(10) + matrix() + zeros(24) + be32(next);
    assert(h =~= a + be32(1000) + (be32(ms) + b));
    lemma_word_at(a, 1000, be32(ms) + b);
    assert(h =~= (a + be32(1000)) + be32(ms) + b);
    lemma_word_at(a + be32(1000), ms, b);
}

proof fn lemma_tkhd(id: int, duration: int, volume: int, width: int, height: int)
    ensures
        ({
            let k = tkhd_body(id, duration, volume, width, height);
            &&& k.len() == 84
            &&& word(k, 12) == id % 0x1_0000_0000
            &&& word(k, 20) == duration % 0x1_0000_0000
            &&& half(k, 36) == volume % 0x1_0000
            &&& word(k, 76) == width % 0x1_0000_0000
            &&& word(k, 80) == height % 0x1_0000_0000
        }),
{
    lemma_names();
    reveal(tkhd_body);
    let x = be32(0) + be32(0) + be32(id) + be32(0) + be32(duration) + zeros(8) + be16(0) + be16(0)
        + be16(volume) + be16(0) + matrix() + be32(width) + be32(height);
    lemma_versioned(text("tkhd"@), 0, 7, x);
    let k = versioned(0, 7, x);
    let a = seq![0u8] + be_bytes(7, 3) + be32(0) + be32(0);
    let b = be32(0) + be32(duration) + zeros(8) + be16(0) + be16(0) + be16(volume) + be16(0)
        + matrix() + be32(width) + be32(height);
    assert(k =~= a + be32(id) + b);
    lemma_word_at(a, id, b);
    let c = a + be32(id) + be32(0);
    let d = zeros(8) + be16(0) + be16(0) + be16(volume) + be16(0) + matrix() + be32(width) + be32(
        height,
    );
    assert(k =~= c + be32(duration) + d);
    lemma_word_at(c, duration, d);
    let e = c + be32(duration) + zeros(8) + be16(0) + be16(0);
    let f = be16(0) + matrix() + be32(width) + be32(height);
    assert(k =~= e + be16(volume) + f);
    lemma_half_at(e, volume, f);
    let g = e + be16(volume) + be16(0) + matrix();
    assert(k =~= g + be32(width) + be32(height));
    lemma_word_at(g, width, be32(height));
    let none = Seq::<u8>::empty();
    assert(k =~= (g + be32(width)) + be32(height) + none);
    lemma_word_at(g + be32(width), height, none);
}

/// The header of the video track gives the size of the picture in units of 1/65536, across first;
/// it is track 1, and silent.
#[verifier::rlimit(30)]
pub proof fn law_video_track_header(
    file: Seq<u8>,
    v: EncodedVideoView,
    sizes: Seq<nat>,
    audio: Option<AudioDataView>,
    json: Seq<char>,
)
    requires
        is_file(file, v, sizes, audio, json),
        v.width < 0x1_0000,
        v.height < 0x1_0000,
    ensures
        inner(track_box(file, 0), "tkhd"@) matches Some(k) && {
            &&& word(k, 12) == 1
            &&& half(k, 36) == 0
            &&& word(k, 76) == v.width * 0x1_0000
            &&& word(k, 80) == v.height * 0x1_0000
        },
{
    lemma_reading(file, v, sizes, audio, json);
    let p = mp4_plan(v, sizes, audio, json);
    lemma_tkhd(1, p.total_ms, 0, v.width * 0x1_0000, v.height * 0x1_0000);
}

#[verifier::rlimit(30)]
proof fn lemma_read_handler(
    file: Seq<u8>,
    v: EncodedVideoView,
    sizes: Seq<nat>,
    audio: Option<AudioDataView>,
    json: Seq<char>,
)
    requires
        is_file(file, v, sizes, audio, json),
    ensures
        inner(inner(track_box(file, 0), "mdia"@), "hdlr"@) == Some(
            hdlr_body("vide"@, "candy video"@),
        ),
{
    lemma_reading(file, v, sizes, audio, json);
}

#[verifier::rlimit(30)]
proof fn lemma_read_sync(
    file: Seq<u8>,
    v: EncodedVideoView,
    sizes: Seq<nat>,
    audio: Option<AudioDataView>,
    json: Seq<char>,
)
    requires
        is_file(file, v, sizes, audio, json),
    ensures
        sample_table(file, 0, "stss"@) == Some(stss_body(v.keyframes)),
{
    lemma_reading(file, v, sizes, audio, json);
}

/// The video track says that it is a video.
#[verifier::rlimit(30)]
pub proof fn law_video_handler(
    file: Seq<u8>,
    v: EncodedVideoView,
    sizes: Seq<nat>,
    audio: Option<AudioDataView>,
    json: Seq<char>,
)
    requires
        is_file(file, v, sizes, audio, json),
    ensures
        inner(inner(track_box(file, 0), "mdia"@), "hdlr"@) matches Some(h) && h.subrange(8, 12)
            == seq![0x76u8, 0x69u8, 0x64u8, 0x65u8],
{
    lemma_read_handler(file, v, sizes, audio, json);
    reveal_strlit("vide");
    vstd::utf8::is_ascii_chars_encode_utf8("vide"@);
    lemma_hdlr("vide"@, "candy video"@);
    assert(text("vide"@) =~= seq![0x76u8, 0x69u8, 0x64u8, 0x65u8]);
}

/// The sample entry that describes a video: its name and the name of its decoder configuration.
pub open spec fn entry_names(v: EncodedVideoView) -> (Seq<u8>, Seq<u8>) {
    if v.is_av1 {
        (text("av01"@), text("av1C"@))
    } else {
        (text("avc1"@), text("avcC"@))
    }
}

/// The one sample entry of the video track is named after the codec, gives the size of the picture,
/// across first, and holds the decoder configuration.
#[verifier::rlimit(30)]
pub proof fn law_video_entry(
    file: Seq<u8>,
    v: EncodedVideoView,
    sizes: Seq<nat>,
    audio: Option<AudioDataView>,
    json: Seq<char>,
)
    requires
        is_file(file, v, sizes, audio, json),
        v.width < 0x1_0000,
        v.height < 0x1_0000,
    ensures
        sample_table(file, 0, "stsd"@) matches Some(d) && word(d, 4) == 1 && (find_box(
            d.skip(8),
            entry_names(v).0,
            0,
        ) matches Some(e) && {
            &&& half(e, 24) == v.width
            &&& half(e, 26) == v.height
            &&& find_box(e.skip(78), entry_names(v).1, 0) == Some(v.codec_private)
        }),
{
    lemma_size_of_entry(file, v, sizes, audio, json);
    lemma_video_entry(v);
    lemma_entry_found(file, v, sizes, audio, json);
}

#[verifier::rlimit(30)]
proof fn lemma_entry_found(
    file: Seq<u8>,
    v: EncodedVideoView,
    sizes: Seq<nat>,
    audio: Option<AudioDataView>,
    json: Seq<char>,
)
    requires
        is_file(file, v, sizes, audio, json),
    ensures
        sample_table(file, 0, "stsd"@) matches Some(d) && word(d, 4) == 1 && d.skip(8)
            == video_entry(v),
{
    lemma_reading(file, v, sizes, audio, json);
    lemma_stsd(video_entry(v));
}

proof fn lemma_stsd(entry: Seq<u8>)
    ensures
        word(stsd_body(entry), 4) == 1,
        stsd_body(entry).skip(8) == entry,
{
    reveal(stsd_body);
    let d = stsd_body(entry);
    let a = seq![0u8] + be_bytes(0, 3);
    assert(d =~= a + be32(1) + entry);
    lemma_word_at(a, 1, entry);
    assert(d.skip(8) =~= entry);
}

proof fn lemma_size_of_entry(
    file: Seq<u8>,
    v: EncodedVideoView,
    sizes: Seq<nat>,
    audio: Option<AudioDataView>,
    json: Seq<char>,
)
    requires
        is_file(file, v, sizes, audio, json),
    ensures
        video_entry(v).len() < 0x1_0000_0000,
{
    lemma_names();
    reveal(is_file);
    let p = mp4_plan(v, sizes, audio, json);
    let (vo, ao) = offsets(p);
    let media = file.skip(mp4_header(p).len() as int);
    assert(file =~= mp4_header(p) + media);
    lemma_file(p, media);
    reveal(video_body);
    let tables = video_tables(v, p.count, p.video_sizes, vo);
    lemma_inside(
        tkhd_body(1, p.total_ms, 0, v.width * 0x1_0000, v.height * 0x1_0000),
        mdhd_body(v.fps as int, p.count),
        hdlr_body("vide"@, "candy video"@),
        vmhd(),
        tables,
    );
    assert(video_entry(v).len() <= stsd(video_entry(v)).len());
    assert(stsd(video_entry(v)).len() <= tables.len());
}

proof fn lemma_hdlr(kind: Seq<char>, name: Seq<char>)
    requires
        text(kind).len() == 4,
    ensures
        hdlr_body(kind, name).len() >= 12,
        hdlr_body(kind, name).subrange(8, 12) == text(kind),
{
    lemma_names();
    reveal(hdlr_body);
    let x = be32(0) + text(kind) + zeros(12) + text(name) + zeros(1);
    lemma_versioned(text("hdlr"@), 0, 0, x);
    assert(versioned(0, 0, x).subrange(8, 12) =~= text(kind));
}

#[verifier::rlimit(30)]
proof fn lemma_video_entry(v: EncodedVideoView)
    requires
        video_entry(v).len() < 0x1_0000_0000,
    ensures
        ({
            let (name, config) = entry_names(v);
            find_box(video_entry(v), name, 0) matches Some(e) && half(e, 24) == v.width % 0x1_0000
                && half(e, 26) == v.height % 0x1_0000 && find_box(e.skip(78), config, 0) == Some(
                v.codec_private,
            )
        }),
{
    lemma_names();
    let none = Seq::<u8>::empty();
    let (name, config) = entry_names(v);
    let c = plain_box(config, v.codec_private);
    let b = be32(0x0048_0000) + be32(0x0048_0000) + be32(0) + be16(1) + zeros(32) + be16(24) + be16(
        0xFFFF,
    );
    let a = zeros(6) + be16(1) + zeros(16);
    let w = be16(v.width as int);
    let h = be16(v.height as int);
    let e = a + w + (h + b + c);
    let built = zeros(6) + be16(1) + zeros(16) + w + h + be32(0x0048_0000) + be32(0x0048_0000)
        + be32(0) + be16(1) + zeros(32) + be16(24) + be16(0xFFFF) + c;
    assert(built =~= e);
    assert(video_entry(v) == plain_box(name, built));
    lemma_skip_header(name, e);
    lemma_skip_header(config, v.codec_private);
    lemma_first_box(name, e, none, name, 0);
    assert(plain_box(name, e) + none =~= plain_box(name, e));
    lemma_half_at(a, v.width as int, h + b + c);
    assert(e =~= (a + w) + h + (b + c));
    lemma_half_at(a + w, v.height as int, b + c);
    assert(e.skip(78) =~= c);
    lemma_first_box(config, v.codec_private, none, config, 0);
    assert(c + none =~= c);
}

/// How many bytes the first `i` samples of a table of sizes take.
pub open spec fn bytes_before(t: Seq<u8>, i: int) -> int
    decreases i,
{
    if i <= 0 {
        0
    } else {
        bytes_before(t, i - 1) + word(t, 12 + 4 * (i - 1))
    }
}

proof fn lemma_all_words(s: Seq<nat>, i: int)
    requires
        0 <= i < s.len(),
        forall|j: int| 0 <= j < s.len() ==> #[trigger] s[j] < 0x1_0000_0000,
    ensures
        be32_all(s).len() == 4 * s.len(),
        word(be32_all(s), 4 * i) == s[i],
    decreases s.len(),
{
    lemma_be32_all_len(s);
    let t = s.drop_last();
    lemma_be32_all_len(t);
    law_big_endian(s.last() as int);
    if i < s.len() - 1 {
        lemma_all_words(t, i);
        lemma_words(be32_all(t), be32(s.last() as int), 4 * i);
    } else {
        lemma_words(be32_all(t), be32(s.last() as int), 4 * i);
        assert(s[s.len() - 1] < 0x1_0000_0000);
    }
}

proof fn lemma_stsz(sizes: Seq<nat>, i: int)
    requires
        sizes.len() < 0x1_0000_0000,
        forall|j: int| 0 <= j < sizes.len() ==> #[trigger] sizes[j] < 0x1_0000_0000,
        0 <= i <= sizes.len(),
    ensures
        ({
            let t = stsz_body(sizes.len() as int, sizes);
            &&& word(t, 4) == 0
            &&& word(t, 8) == sizes.len()
            &&& i < sizes.len() ==> word(t, 12 + 4 * i) == sizes[i]
            &&& bytes_before(t, i) == sum(sizes.take(i))
        }),
    decreases i,
{
    reveal(stsz_body);
    let n = sizes.len() as int;
    let t = stsz_body(n, sizes);
    let a = seq![0u8] + be_bytes(0, 3);
    lemma_be32_all_len(sizes);
    assert(t =~= a + be32(0) + (be32(n) + be32_all(sizes)));
    lemma_word_at(a, 0, be32(n) + be32_all(sizes));
    assert(t =~= (a + be32(0)) + be32(n) + be32_all(sizes));
    lemma_word_at(a + be32(0), n, be32_all(sizes));
    if i < n {
        lemma_all_words(sizes, i);
        assert(t =~= (a + be32(0) + be32(n)) + be32_all(sizes));
        lemma_words(a + be32(0) + be32(n), be32_all(sizes), 12 + 4 * i);
    }
    if i > 0 {
        lemma_stsz(sizes, i - 1);
        assert(sizes.take(i).drop_last() =~= sizes.take(i - 1));
        assert(sizes.take(i).last() == sizes[i - 1]);
    }
}

proof fn lemma_concat_prefix(parts: Seq<Seq<u8>>, sizes: Seq<nat>, i: int)
    requires
        parts.len() == sizes.len(),
        0 <= i <= parts.len(),
        forall|j: int| 0 <= j < parts.len() ==> #[trigger] sizes[j] == parts[j].len(),
    ensures
        concat(parts.take(i)).len() == sum(sizes.take(i)),
    decreases i,
{
    if i > 0 {
        lemma_concat_prefix(parts, sizes, i - 1);
        assert(parts.take(i).drop_last() =~= parts.take(i - 1));
        assert(sizes.take(i).drop_last() =~= sizes.take(i - 1));
        assert(sizes[i - 1] == parts[i - 1].len());
    } else {
        assert(sizes.take(0) =~= Seq::<nat>::empty());
        assert(parts.take(0) =~= Seq::<Seq<u8>>::empty());
    }
}

proof fn lemma_chunks(n: int, vo: int)
    requires
        0 <= n < 0x1_0000_0000,
        0 <= vo < 0x1_0000_0000,
    ensures
        word(stco_body(vo), 4) == 1,
        word(stco_body(vo), 8) == vo,
        word(stsc_body(n), 4) == 1,
        word(stsc_body(n), 8) == 1,
        word(stsc_body(n), 12) == n,
        word(stsc_body(n), 16) == 1,
{
    reveal(stco_body);
    reveal(stsc_body);
    let a = seq![0u8] + be_bytes(0, 3);
    let o = stco_body(vo);
    assert(o =~= a + be32(1) + be32(vo));
    lemma_word_at(a, 1, be32(vo));
    assert(o =~= (a + be32(1)) + be32(vo) + Seq::<u8>::empty());
    lemma_word_at(a + be32(1), vo, Seq::empty());
    let c = stsc_body(n);
    let b = a + be32(1);
    assert(c =~= a + be32(1) + (be32(1) + be32(n) + be32(1)));
    lemma_word_at(a, 1, be32(1) + be32(n) + be32(1));
    assert(c =~= b + be32(1) + (be32(n) + be32(1)));
    lemma_word_at(b, 1, be32(n) + be32(1));
    assert(c =~= (b + be32(1)) + be32(n) + be32(1));
    lemma_word_at(b + be32(1), n, be32(1));
    assert(c =~= (b + be32(1) + be32(n)) + be32(1) + Seq::<u8>::empty());
    lemma_word_at(b + be32(1) + be32(n), 1, Seq::empty());
}

/// A player finds every frame: all samples are in one chunk, which starts where the table of chunks
/// says, and frame i lies behind the frames before it, as long as the table of sizes says.
#[verifier::rlimit(30)]
pub proof fn law_frames_found(
    file: Seq<u8>,
    v: EncodedVideoView,
    audio: Option<AudioDataView>,
    json: Seq<char>,
    sound: Seq<u8>,
    i: int,
)
    requires
        v.fps > 0,
        file == mp4_header(mp4_plan(v, crate::mp4::sizes_of(v.frames), audio, json)) + concat(
            v.frames,
        ) + sound,
        file.len() < 0x1_0000_0000,
        0 <= i < v.frames.len() < 0x1_0000_0000,
    ensures
        sample_table(file, 0, "stsc"@) matches Some(c) && (sample_table(file, 0, "stsz"@)
            matches Some(z) && (sample_table(file, 0, "stco"@) matches Some(o) && {
            let at = word(o, 8) + bytes_before(z, i);
            &&& word(c, 4) == 1 && word(c, 8) == 1 && word(c, 12) == v.frames.len() && word(c, 16)
                == 1
            &&& word(z, 4) == 0
            &&& word(z, 8) == v.frames.len()
            &&& word(o, 4) == 1
            &&& word(z, 12 + 4 * i) == v.frames[i].len()
            &&& file.subrange(at, at + word(z, 12 + 4 * i)) == v.frames[i]
        })),
{
    let sizes = crate::mp4::sizes_of(v.frames);
    let n = sizes.len() as int;
    let p = mp4_plan(v, sizes, audio, json);
    let header = mp4_header(p);
    let all = concat(v.frames);
    assert(file.take(header.len() as int) =~= header);
    assert(is_file(file, v, sizes, audio, json)) by {
        reveal(is_file);
    }
    lemma_reading(file, v, sizes, audio, json);
    let vo = header.len() as int;
    assert forall|j: int| 0 <= j < v.frames.len() implies #[trigger] sizes[j]
        == v.frames[j].len() by {
        crate::bytes::lemma_concat_at(v.frames, j);
    }
    lemma_stsz(sizes, i);
    crate::bytes::lemma_concat_at(v.frames, i);
    lemma_concat_prefix(v.frames, sizes, i);
    let k = concat(v.frames.take(i)).len() as int;
    let size = v.frames[i].len() as int;
    assert(file.subrange(vo + k, vo + k + size) =~= all.subrange(k, k + size));
    lemma_chunks(n, vo);
}

/// Entry `k` of a table of sync samples.
pub open spec fn sync_entry(t: Seq<u8>, k: int) -> int {
    word(t, 8 + 4 * k)
}

/// Whether a table of sync samples names sample `n`.
pub open spec fn names_sync(t: Seq<u8>, n: int) -> bool {
    exists|k: int| 0 <= k < word(t, 4) && #[trigger] sync_entry(t, k) == n
}

/// The table of sync samples names the frames that can be decoded on their own, counted from 1 on,
/// in ascending order; the first frame where there is none.
#[verifier::rlimit(30)]
pub proof fn law_key_frames_named(
    file: Seq<u8>,
    v: EncodedVideoView,
    sizes: Seq<nat>,
    audio: Option<AudioDataView>,
    json: Seq<char>,
    n: int,
)
    requires
        is_file(file, v, sizes, audio, json),
        v.keyframes.len() < 0x1_0000_0000,
        1 <= n <= v.keyframes.len(),
        exists|i: int| 0 <= i < v.keyframes.len() && v.keyframes[i],
    ensures
        sample_table(file, 0, "stss"@) matches Some(t) && v.keyframes[n - 1] == names_sync(t, n),
{
    lemma_read_sync(file, v, sizes, audio, json);
    let s = crate::mp4::sync_samples(v.keyframes);
    let t = stss_body(v.keyframes);
    let i = choose|i: int| 0 <= i < v.keyframes.len() && v.keyframes[i];
    crate::mp4::law_sync_samples(v.keyframes, (i + 1) as nat);
    crate::mp4::law_sync_samples(v.keyframes, n as nat);
    lemma_stss(v.keyframes);
    assert(s.contains(n as nat) <==> v.keyframes[n - 1]);
    if v.keyframes[n - 1] {
        let k = choose|k: int| 0 <= k < s.len() && s[k] == n as nat;
        assert(sync_entry(t, k) == s[k]);
        assert(0 <= k < word(t, 4) && sync_entry(t, k) == n);
    }
    if exists|k: int| 0 <= k < word(t, 4) && #[trigger] sync_entry(t, k) == n {
        let k = choose|k: int| 0 <= k < word(t, 4) && #[trigger] sync_entry(t, k) == n;
        assert(sync_entry(t, k) == s[k]);
        assert(s[k] == n as nat);
        assert(s.contains(n as nat));
    }
    assert(v.keyframes[n - 1] == names_sync(t, n));
}

proof fn lemma_stss(keyframes: Seq<bool>)
    requires
        crate::mp4::sync_samples(keyframes).len() > 0,
        keyframes.len() < 0x1_0000_0000,
    ensures
        ({
            let s = crate::mp4::sync_samples(keyframes);
            let t = stss_body(keyframes);
            &&& word(t, 4) == s.len()
            &&& forall|k: int| 0 <= k < s.len() ==> #[trigger] sync_entry(t, k) == s[k]
        }),
{
    let s = crate::mp4::sync_samples(keyframes);
    crate::mp4::law_sync_samples_ascend(keyframes);
    lemma_sync_count(keyframes);
    reveal(stss_body);
    let n = s.len() as int;
    let x = be32(n) + be32_all(s);
    lemma_stss_name();
    lemma_versioned(text("stss"@), 0, 0, x);
    let t = versioned(0, 0, x);
    assert(stss_body(keyframes) == t);
    let a = seq![0u8] + be_bytes(0, 3);
    assert(t =~= a + be32(n) + be32_all(s));
    lemma_word_at(a, n, be32_all(s));
    assert forall|k: int| 0 <= k < s.len() implies #[trigger] sync_entry(t, k) == s[k] by {
        lemma_all_words(s, k);
        lemma_words(a + be32(n), be32_all(s), 8 + 4 * k);
    }
}

proof fn lemma_stss_name()
    ensures
        text("stss"@).len() == 4,
{
    lemma_names();
}

proof fn lemma_sync_count(keyframes: Seq<bool>)
    ensures
        crate::mp4::sync_samples(keyframes).len() <= keyframes.len(),
    decreases keyframes.len(),
{
    if keyframes.len() > 0 {
        lemma_sync_count(keyframes.drop_last());
    }
}

// ---------------------------------------------------------------- audio

#[verifier::rlimit(30)]
proof fn lemma_sound(p: Mp4Plan, a: AudioDataView, ao: int)
    requires
        audio_body(p, a, ao).len() < 0x1_0000_0000,
    ensures
        ({
            let t = Some(audio_body(p, a, ao));
            let m = inner(t, "mdia"@);
            let st = inner(inner(m, "minf"@), "stbl"@);
            &&& inner(t, "tkhd"@) == Some(tkhd_body(2, 0, 0x0100, 0, 0))
            &&& inner(m, "mdhd"@) == Some(
                wide_body(
                    a.sample_rate as int,
                    sum(p.audio_durations) % 0x1_0000_0000_0000_0000,
                ),
            )
            &&& inner(m, "hdlr"@) == Some(hdlr_body("soun"@, "candy audio"@))
            &&& inner(st, "stsd"@) == Some(stsd_body(audio_entry(a)))
            &&& inner(st, "stts"@) == Some(sound_times(p.audio_durations))
            &&& inner(st, "stsc"@) == Some(stsc_body(p.audio_sizes.len() as int))
            &&& inner(st, "stsz"@) == Some(
                stsz_body(p.audio_sizes.len() as int, p.audio_sizes),
            )
            &&& inner(st, "stco"@) == Some(stco_body(ao))
            &&& audio_entry(a).len() < 0x1_0000_0000
            &&& stts_entries(p.audio_durations).len() < 0x1_0000_0000
        }),
{
    lemma_names();
    reveal(audio_body);
    let h = versioned(0, 0, be16(0) + be16(0));
    lemma_versioned(text("smhd"@), 0, 0, be16(0) + be16(0));
    let tables = audio_tables(a, p.audio_sizes, p.audio_durations, ao);
    let tk = tkhd_body(2, 0, 0x0100, 0, 0);
    let md = wide_body(
        a.sample_rate as int,
        sum(p.audio_durations) % 0x1_0000_0000_0000_0000,
    );
    let hd = hdlr_body("soun"@, "candy audio"@);
    lemma_inside(tk, md, hd, smhd(), tables);
    lemma_trak(tk, md, hd, text("smhd"@), h, tables);
    lemma_audio_tables(a, p.audio_sizes, p.audio_durations, ao);
    assert(audio_entry(a).len() <= stsd(audio_entry(a)).len());
    assert(stsd(audio_entry(a)).len() <= tables.len());
}

#[verifier::rlimit(30)]
proof fn lemma_sound_track(
    file: Seq<u8>,
    v: EncodedVideoView,
    sizes: Seq<nat>,
    a: AudioDataView,
    json: Seq<char>,
)
    requires
        is_file(file, v, sizes, Some(a), json),
        a.codec == AudioCodec::Aac,
        a.frames.len() > 0,
    ensures
        ({
            let p = mp4_plan(v, sizes, Some(a), json);
            &&& track_box(file, 1) == Some(audio_body(p, a, offsets(p).1))
            &&& audio_body(p, a, offsets(p).1).len() < 0x1_0000_0000
        }),
{
    reveal(is_file);
    let p = mp4_plan(v, sizes, Some(a), json);
    let header = mp4_header(p);
    let media = file.skip(header.len() as int);
    assert(file =~= header + media);
    lemma_file(p, media);
}

proof fn lemma_wide(timescale: int, duration: nat)
    requires
        duration < 0x1_0000_0000,
    ensures
        ({
            let h = wide_body(timescale, duration);
            &&& h.len() == 36
            &&& h[0] == 1
            &&& word(h, 20) == timescale % 0x1_0000_0000
            &&& word(h, 24) == 0
            &&& word(h, 28) == duration
        }),
{
    reveal(wide_body);
    lemma_mdhd_name();
    let x = zeros(8) + zeros(8) + be32(timescale) + be_bytes(duration, 8) + be16(0x55C4) + be16(0);
    lemma_versioned(text("mdhd"@), 1, 0, x);
    let h = versioned(1, 0, x);
    let a = seq![1u8] + be_bytes(0, 3) + zeros(8) + zeros(8);
    let b = be_bytes(duration, 8) + be16(0x55C4) + be16(0);
    assert(h =~= a + be32(timescale) + b);
    lemma_word_at(a, timescale, b);
    law_big_endian(duration as int);
    let c = a + be32(timescale);
    let d = be16(0x55C4) + be16(0);
    assert(h =~= c + (be_bytes(duration, 8) + d));
    lemma_words(c, be_bytes(duration, 8) + d, 24);
    lemma_words(c, be_bytes(duration, 8) + d, 28);
    lemma_words(be_bytes(duration, 8), d, 0);
    lemma_words(be_bytes(duration, 8), d, 4);
}

proof fn lemma_mdhd_name()
    ensures
        text("mdhd"@).len() == 4,
{
    lemma_names();
}

proof fn lemma_stts_entries(durs: Seq<nat>, k: int)
    requires
        0 <= k < durs.len(),
        forall|j: int| 0 <= j < durs.len() ==> #[trigger] durs[j] < 0x1_0000_0000,
    ensures
        stts_entries(durs).len() == 8 * durs.len(),
        word(stts_entries(durs), 8 * k) == 1,
        word(stts_entries(durs), 8 * k + 4) == durs[k],
    decreases durs.len(),
{
    let t = durs.drop_last();
    lemma_entries_len(durs);
    lemma_entries_len(t);
    let e = be32(1) + be32(durs.last() as int);
    assert(stts_entries(durs) =~= stts_entries(t) + e);
    law_big_endian(1);
    law_big_endian(durs.last() as int);
    if k < durs.len() - 1 {
        lemma_stts_entries(t, k);
        lemma_words(stts_entries(t), e, 8 * k);
        lemma_words(stts_entries(t), e, 8 * k + 4);
    } else {
        assert(durs[durs.len() - 1] < 0x1_0000_0000);
        lemma_words(stts_entries(t), e, 8 * k);
        lemma_words(stts_entries(t), e, 8 * k + 4);
        lemma_words(be32(1), be32(durs.last() as int), 0);
        lemma_words(be32(1), be32(durs.last() as int), 4);
    }
}

proof fn lemma_entries_len(durs: Seq<nat>)
    ensures
        stts_entries(durs).len() == 8 * durs.len(),
    decreases durs.len(),
{
    if durs.len() > 0 {
        lemma_entries_len(durs.drop_last());
    }
}

/// Whether a time-to-sample table gives each sample a duration of its own.
spec fn one_each(t: Seq<u8>, durs: Seq<nat>) -> bool {
    &&& word(t, 4) == durs.len()
    &&& forall|k: int| 0 <= k < durs.len() ==> #[trigger] lasts(t, k, durs[k] as int)
}

/// Whether entry `k` of a time-to-sample table is about one sample that lasts `d` ticks.
spec fn lasts(t: Seq<u8>, k: int, d: int) -> bool {
    word(t, 8 + 8 * k) == 1 && word(t, 12 + 8 * k) == d
}

proof fn lemma_one_each(durs: Seq<nat>)
    requires
        durs.len() < 0x1_0000_0000,
        forall|j: int| 0 <= j < durs.len() ==> #[trigger] durs[j] < 0x1_0000_0000,
    ensures
        one_each(sound_times(durs), durs),
{
    reveal(sound_times);
    let t = sound_times(durs);
    let a = seq![0u8] + be_bytes(0, 3);
    let n = durs.len() as int;
    lemma_entries_len(durs);
    assert(t =~= a + be32(n) + stts_entries(durs));
    lemma_word_at(a, n, stts_entries(durs));
    assert(a.len() == 4);
    assert(word(t, 4) == durs.len());
    assert forall|k: int| 0 <= k < durs.len() implies #[trigger] lasts(
        t,
        k,
        durs[k] as int,
    ) by {
        lemma_stts_entries(durs, k);
        lemma_words(a + be32(n), stts_entries(durs), 8 + 8 * k);
        lemma_words(a + be32(n), stts_entries(durs), 12 + 8 * k);
        assert((a + be32(n)).len() == 8);
    }
    assert(one_each(t, durs));
}

proof fn lemma_ticks(t: Seq<u8>, durs: Seq<nat>, e: int, i: int)
    requires
        one_each(t, durs),
        0 <= e <= durs.len(),
        0 <= i <= durs.len() - e,
    ensures
        ticks(t, e, i) == sum(durs.take(e + i)) - sum(durs.take(e)),
    decreases i,
{
    if i > 0 {
        assert(durs.take(e + 1).drop_last() =~= durs.take(e));
        assert(durs.take(e + 1).last() == durs[e]);
        assert(lasts(t, e, durs[e] as int));
        if i == 1 {
            assert(ticks(t, e, 1) == 1 * durs[e]);
        } else {
            lemma_ticks(t, durs, e + 1, i - 1);
            assert(word(t, 8 + 8 * e) == 1 && word(t, 12 + 8 * e) == durs[e]);
        }
    }
}

#[verifier::rlimit(30)]
proof fn lemma_read_times(
    file: Seq<u8>,
    v: EncodedVideoView,
    sizes: Seq<nat>,
    a: AudioDataView,
    json: Seq<char>,
)
    requires
        is_file(file, v, sizes, Some(a), json),
        a.codec == AudioCodec::Aac,
        a.frames.len() > 0,
    ensures
        ({
            let durs = crate::mp4::aac_durations(Some(a));
            &&& media_header(file, 1) == Some(
                wide_body(a.sample_rate as int, sum(durs) % 0x1_0000_0000_0000_0000),
            )
            &&& sample_table(file, 1, "stts"@) == Some(sound_times(durs))
        }),
{
    let p = mp4_plan(v, sizes, Some(a), json);
    assert(p.audio_durations == crate::mp4::aac_durations(Some(a)));
    lemma_sound_track(file, v, sizes, a, json);
    lemma_sound(p, a, offsets(p).1);
}

proof fn lemma_sound_ticks(durs: Seq<nat>, i: int)
    requires
        0 <= i < durs.len() < 0x1_0000_0000,
        forall|j: int| 0 <= j < durs.len() ==> #[trigger] durs[j] < 0x1_0000_0000,
    ensures
        ticks(sound_times(durs), 0, i + 1) - ticks(sound_times(durs), 0, i) == durs[i],
        ticks(sound_times(durs), 0, durs.len() as int) == sum(durs),
{
    lemma_one_each(durs);
    let t = sound_times(durs);
    let n = durs.len() as int;
    lemma_ticks(t, durs, 0, i);
    lemma_ticks(t, durs, 0, i + 1);
    lemma_ticks(t, durs, 0, n);
    assert(durs.take(0) =~= Seq::<nat>::empty());
    assert(durs.take(n) =~= durs);
    assert(durs.take(i + 1).drop_last() =~= durs.take(i));
    assert(durs.take(i + 1).last() == durs[i]);
}

/// The packets of the audio track last as long as they do in the track: packet i takes as many
/// samples of the sample rate, which is the timescale, as fit into its milliseconds, and all
/// packets together last as long as the media header says.
#[verifier::rlimit(30)]
pub proof fn law_audio_timing(
    file: Seq<u8>,
    v: EncodedVideoView,
    sizes: Seq<nat>,
    a: AudioDataView,
    json: Seq<char>,
    i: int,
)
    requires
        is_file(file, v, sizes, Some(a), json),
        a.codec == AudioCodec::Aac,
        0 <= i < a.frames.len() < 0x1_0000_0000,
        forall|j: int|
            0 <= j < a.frames.len() ==> (#[trigger] a.frames[j]).duration_ms * a.sample_rate
                < 1000 * 0x1_0000_0000,
        sum(crate::mp4::aac_durations(Some(a))) < 0x1_0000_0000,
    ensures
        media_header(file, 1) matches Some(h) && (sample_table(file, 1, "stts"@) matches Some(t) && {
            let n = a.frames.len() as int;
            let d = ticks(t, 0, i + 1) - ticks(t, 0, i);
            &&& h[0] == 1
            &&& word(h, 20) == a.sample_rate
            &&& ticks(t, 0, n) == word(h, 28)
            &&& d * 1000 <= a.frames[i].duration_ms * a.sample_rate < (d + 1) * 1000
        }),
{
    let durs = crate::mp4::aac_durations(Some(a));
    lemma_read_times(file, v, sizes, a, json);
    lemma_wide(a.sample_rate as int, sum(durs));
    assert forall|j: int| 0 <= j < durs.len() implies #[trigger] durs[j] < 0x1_0000_0000 by {}
    lemma_sound_ticks(durs, i);
    let x = a.frames[i].duration_ms * a.sample_rate;
    assert(x >= 0) by (nonlinear_arith)
        requires
            x == a.frames[i].duration_ms * a.sample_rate,
    ;
    assert(durs[i] == x / 1000);
}

#[verifier::rlimit(30)]
proof fn lemma_read_sound(
    file: Seq<u8>,
    v: EncodedVideoView,
    sizes: Seq<nat>,
    a: AudioDataView,
    json: Seq<char>,
)
    requires
        is_file(file, v, sizes, Some(a), json),
        a.codec == AudioCodec::Aac,
        a.frames.len() > 0,
    ensures
        inner(track_box(file, 1), "tkhd"@) == Some(tkhd_body(2, 0, 0x0100, 0, 0)),
        inner(inner(track_box(file, 1), "mdia"@), "hdlr"@) == Some(
            hdlr_body("soun"@, "candy audio"@),
        ),
        sample_table(file, 1, "stsd"@) == Some(stsd_body(audio_entry(a))),
        audio_entry(a).len() < 0x1_0000_0000,
{
    let p = mp4_plan(v, sizes, Some(a), json);
    lemma_sound_track(file, v, sizes, a, json);
    lemma_sound(p, a, offsets(p).1);
}

/// The audio track is track 2, at full volume, and says that it is sound.
#[verifier::rlimit(30)]
pub proof fn law_audio_track_header(
    file: Seq<u8>,
    v: EncodedVideoView,
    sizes: Seq<nat>,
    a: AudioDataView,
    json: Seq<char>,
)
    requires
        is_file(file, v, sizes, Some(a), json),
        a.codec == AudioCodec::Aac,
        a.frames.len() > 0,
    ensures
        inner(track_box(file, 1), "tkhd"@) matches Some(k) && word(k, 12) == 2 && half(k, 36)
            == 0x100,
        inner(inner(track_box(file, 1), "mdia"@), "hdlr"@) matches Some(h) && h.subrange(8, 12)
            == seq![0x73u8, 0x6fu8, 0x75u8, 0x6eu8],
{
    lemma_read_sound(file, v, sizes, a, json);
    lemma_tkhd(2, 0, 0x0100, 0, 0);
    reveal_strlit("soun");
    vstd::utf8::is_ascii_chars_encode_utf8("soun"@);
    lemma_hdlr("soun"@, "candy audio"@);
    assert(text("soun"@) =~= seq![0x73u8, 0x6fu8, 0x75u8, 0x6eu8]);
}

/// The sample entry of the audio track gives its channels, of 16 bits, and its sample rate in units
/// of 1/65536, and the decoder configuration stands in its description.
#[verifier::rlimit(30)]
pub proof fn law_audio_entry(
    file: Seq<u8>,
    v: EncodedVideoView,
    sizes: Seq<nat>,
    a: AudioDataView,
    json: Seq<char>,
)
    requires
        is_file(file, v, sizes, Some(a), json),
        a.codec == AudioCodec::Aac,
        a.frames.len() > 0,
        a.sample_rate < 0x1_0000,
        a.codec_private.len() < 100,
    ensures
        sample_table(file, 1, "stsd"@) matches Some(d) && word(d, 4) == 1 && (find_box(
            d.skip(8),
            text("mp4a"@),
            0,
        ) matches Some(e) && {
            &&& half(e, 16) == a.channels
            &&& half(e, 18) == 16
            &&& word(e, 24) == a.sample_rate * 0x1_0000
            &&& find_box(e.skip(28), text("esds"@), 0) matches Some(x) && describes(
                x,
                a.codec_private,
            )
        }),
{
    lemma_read_sound(file, v, sizes, a, json);
    lemma_stsd(audio_entry(a));
    lemma_audio_entry(a);
    lemma_esds(a.codec_private);
}

/// Whether a description of a stream holds a decoder configuration: a stream, in it a decoder for
/// MPEG-4 audio, in that the configuration, and behind the decoder how the stream is cut up.
pub open spec fn describes(x: Seq<u8>, config: Seq<u8>) -> bool {
    let n = config.len() as int;
    &&& x.len() == n + 29
    &&& x[4] == 3 && x[5] == n + 23
    &&& x[9] == 4 && x[10] == n + 15 && x[11] == 0x40
    &&& x[24] == 5 && x[25] == n
    &&& x.subrange(26, 26 + n) == config
    &&& x[26 + n] == 6
}

/// What the description of an AAC stream holds.
#[verifier::opaque]
spec fn esds_body(config: Seq<u8>) -> Seq<u8> {
    versioned(0, 0, esds_payload(config))
}

/// What an audio sample entry holds in front of the description of the stream.
spec fn entry_front(channels: int, rate: int) -> Seq<u8> {
    zeros(6) + be16(1) + zeros(8) + be16(channels) + be16(16) + be16(0) + be16(0) + be32(rate)
}

proof fn lemma_entry_front(channels: int, rate: int, c: Seq<u8>)
    ensures
        ({
            let e = entry_front(channels, rate) + c;
            &&& entry_front(channels, rate).len() == 28
            &&& half(e, 16) == channels % 0x1_0000
            &&& half(e, 18) == 16
            &&& word(e, 24) == rate % 0x1_0000_0000
            &&& e.skip(28) == c
        }),
{
    let front = zeros(6) + be16(1) + zeros(8);
    let ch = be16(channels);
    let e = entry_front(channels, rate) + c;
    let b = be16(16) + be16(0) + be16(0) + be32(rate) + c;
    assert(e =~= front + ch + b);
    lemma_half_at(front, channels, b);
    let b2 = be16(0) + be16(0) + be32(rate) + c;
    assert(e =~= (front + ch) + be16(16) + b2);
    lemma_half_at(front + ch, 16, b2);
    let f2 = front + ch + be16(16) + be16(0) + be16(0);
    assert(e =~= f2 + be32(rate) + c);
    lemma_word_at(f2, rate, c);
    assert(e.skip(28) =~= c);
}

#[verifier::rlimit(30)]
proof fn lemma_audio_entry(a: AudioDataView)
    requires
        audio_entry(a).len() < 0x1_0000_0000,
    ensures
        find_box(audio_entry(a), text("mp4a"@), 0) matches Some(e) && {
            &&& half(e, 16) == a.channels
            &&& half(e, 18) == 16
            &&& word(e, 24) == (a.sample_rate * 0x1_0000) % 0x1_0000_0000
            &&& find_box(e.skip(28), text("esds"@), 0) == Some(esds_body(a.codec_private))
        },
{
    let rate = (a.sample_rate * 0x1_0000) % 0x1_0000_0000;
    let x = esds_body(a.codec_private);
    let c = plain_box(text("esds"@), x);
    let e = entry_front(a.channels as int, rate) + c;
    lemma_entry_made(a);
    lemma_entry_front(a.channels as int, rate, c);
    lemma_one_box(text("mp4a"@), e);
    lemma_one_box(text("esds"@), x);
}

proof fn lemma_one_box(name: Seq<u8>, payload: Seq<u8>)
    requires
        name.len() == 4,
        payload.len() + 8 < 0x1_0000_0000,
    ensures
        find_box(plain_box(name, payload), name, 0) == Some(payload),
{
    let none = Seq::<u8>::empty();
    lemma_first_box(name, payload, none, name, 0);
    assert(plain_box(name, payload) + none =~= plain_box(name, payload));
}

proof fn lemma_entry_made(a: AudioDataView)
    ensures
        text("mp4a"@).len() == 4,
        text("esds"@).len() == 4,
        audio_entry(a) == plain_box(
            text("mp4a"@),
            entry_front(
                a.channels as int,
                (a.sample_rate * 0x1_0000) % 0x1_0000_0000,
            ) + plain_box(text("esds"@), esds_body(a.codec_private)),
        ),
        audio_entry(a).len() >= plain_box(text("esds"@), esds_body(a.codec_private)).len() + 36,
        plain_box(text("esds"@), esds_body(a.codec_private)).len() >= esds_body(
            a.codec_private,
        ).len() + 8,
{
    lemma_names();
    reveal(esds_body);
    lemma_versioned(text("esds"@), 0, 0, esds_payload(a.codec_private));
}

proof fn lemma_esds(config: Seq<u8>)
    requires
        config.len() < 100,
    ensures
        describes(esds_body(config), config),
{
    reveal(esds_body);
    let n = config.len() as int;
    let c5 = crate::mp4::descriptor(0x05, config);
    let d4 = seq![0x40u8, 0x15u8] + zeros(3) + be32(0) + be32(0) + c5;
    let c4 = crate::mp4::descriptor(0x04, d4);
    let c6 = crate::mp4::descriptor(0x06, seq![0x02u8]);
    let d3 = be16(1) + zeros(1) + c4 + c6;
    assert(c5.len() == n + 2);
    assert(d4.len() == n + 15);
    assert(c4.len() == n + 17);
    assert(c6.len() == 3);
    assert(d3.len() == n + 23);
    let p = esds_payload(config);
    assert(p == crate::mp4::descriptor(0x03, d3));
    let x = versioned(0, 0, p);
    let front = seq![0u8] + be_bytes(0, 3);
    assert(x =~= front + p);
    assert(front.len() == 4);
    assert(p[0] == 3 && p[1] == n + 23);
    assert(p[5] == c4[0] && p[6] == c4[1] && p[7] == c4[2]);
    assert(c4[2] == d4[0]);
    assert(p[20] == c4[15] && c4[15] == d4[13] && d4[13] == c5[0]);
    assert(p[21] == c4[16] && c4[16] == d4[14] && d4[14] == c5[1]);
    assert forall|k: int| 0 <= k < n implies x[26 + k] == config[k] by {
        assert(x[26 + k] == p[22 + k]);
        assert(p[22 + k] == c4[17 + k]);
        assert(c4[17 + k] == d4[15 + k]);
        assert(d4[15 + k] == c5[2 + k]);
    }
    assert(x.subrange(26, 26 + n) =~= config);
    assert(x[26 + n] == p[22 + n] && p[22 + n] == c6[0]);
}

/// A player finds every audio packet: all are in one chunk, which starts where the table of chunks
/// says, and packet i lies behind the packets before it, as long as the table of sizes says.
#[verifier::rlimit(30)]
pub proof fn law_packets_found(
    file: Seq<u8>,
    v: EncodedVideoView,
    a: AudioDataView,
    json: Seq<char>,
    i: int,
)
    requires
        v.fps > 0,
        a.codec == AudioCodec::Aac,
        file == mp4_header(mp4_plan(v, crate::mp4::sizes_of(v.frames), Some(a), json)) + concat(
            v.frames,
        ) + concat(packet_data(a)),
        file.len() < 0x1_0000_0000,
        0 < v.frames.len() < 0x1_0000_0000,
        0 <= i < a.frames.len() < 0x1_0000_0000,
    ensures
        sample_table(file, 1, "stsc"@) matches Some(c) && (sample_table(file, 1, "stsz"@)
            matches Some(z) && (sample_table(file, 1, "stco"@) matches Some(o) && {
            let at = word(o, 8) + bytes_before(z, i);
            &&& word(c, 4) == 1 && word(c, 8) == 1 && word(c, 12) == a.frames.len() && word(c, 16)
                == 1
            &&& word(z, 8) == a.frames.len()
            &&& word(z, 12 + 4 * i) == a.frames[i].data.len()
            &&& file.subrange(at, at + word(z, 12 + 4 * i)) == a.frames[i].data
        })),
{
    let sizes = crate::mp4::sizes_of(v.frames);
    let p = mp4_plan(v, sizes, Some(a), json);
    let header = mp4_header(p);
    let parts = packet_data(a);
    let sound = concat(parts);
    let video = concat(v.frames);
    assert(file.take(header.len() as int) =~= header);
    assert(is_file(file, v, sizes, Some(a), json)) by {
        reveal(is_file);
    }
    lemma_sound_track(file, v, sizes, a, json);
    law_media_offset(p);
    let all = crate::mp4::aac_sizes(Some(a));
    assert(p.audio_sizes == all);
    assert forall|j: int| 0 <= j < parts.len() implies #[trigger] all[j] == parts[j].len() by {
        crate::bytes::lemma_concat_at(parts, j);
    }
    assert forall|j: int| 0 <= j < v.frames.len() implies #[trigger] sizes[j]
        == v.frames[j].len() by {
        crate::bytes::lemma_concat_at(v.frames, j);
    }
    lemma_concat_prefix(v.frames, sizes, v.frames.len() as int);
    assert(v.frames.take(v.frames.len() as int) =~= v.frames);
    assert(sizes.take(v.frames.len() as int) =~= sizes);
    let ao = header.len() + video.len();
    assert(offsets(p).1 == ao);
    lemma_sound(p, a, ao as int);
    lemma_stsz(all, i);
    lemma_chunks(all.len() as int, ao as int);
    crate::bytes::lemma_concat_at(parts, i);
    lemma_concat_prefix(parts, all, i);
    let k = concat(parts.take(i)).len() as int;
    let size = parts[i].len() as int;
    assert(file.subrange(ao + k, ao + k + size) =~= sound.subrange(k, k + size));
}

/// The data of each packet.
pub open spec fn packet_data(a: AudioDataView) -> Seq<Seq<u8>> {
    a.frames.map_values(|f: crate::audio::AudioFrameView| f.data)
}

} // verus!
