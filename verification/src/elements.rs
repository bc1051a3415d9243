//! How a player reads a Matroska file: elements inside elements, tracks and blocks.

use vstd::prelude::*;
use crate::audio::{AudioCodec, AudioDataView};
use crate::bytes::{be16, be_bytes, be_value, lemma_be_bytes_len, lemma_be_round_trip, pow256, text};
use crate::ebml::{
    double_bits, double_bytes, law_uint_round_trip, law_vint_round_trip, log2, pow128, uint,
    uint_len, vint, vint_len,
};
use crate::matroska::{
    audio_blocks, audio_entry, block, cluster, cluster_content, cluster_plan, clusters, ebml_header,
    elem, frame_ms, in_cluster, info, last_ms, matroska, segment, tags, tracks, video_blocks,
    video_entry,
};
use crate::video::EncodedVideoView;

verus! {

broadcast use lemma_be_bytes_len;

// ---------------------------------------------------------------- numbers

/// How many bytes an identifier takes, by its first byte.
pub open spec fn id_width(b: u8) -> int {
    if b >= 0x80 {
        1
    } else if b >= 0x40 {
        2
    } else if b >= 0x20 {
        3
    } else if b >= 0x10 {
        4
    } else {
        0
    }
}

/// How many bytes a size takes, by its first byte.
pub open spec fn size_width(b: u8) -> int {
    if b >= 0x80 {
        1
    } else if b >= 0x40 {
        2
    } else if b >= 0x20 {
        3
    } else if b >= 0x10 {
        4
    } else if b >= 0x08 {
        5
    } else if b >= 0x04 {
        6
    } else if b >= 0x02 {
        7
    } else if b >= 0x01 {
        8
    } else {
        0
    }
}

/// What the element number `k` with the given identifier holds, among elements one after the
/// other: each starts with its identifier and its size.
#[verifier::opaque]
pub open spec fn find_elem(s: Seq<u8>, id: nat, k: nat) -> Option<Seq<u8>>
    decreases s.len(),
{
    if s.len() == 0 || id_width(s[0]) == 0 || id_width(s[0]) >= s.len() {
        None
    } else {
        let i = id_width(s[0]);
        let w = size_width(s[i]);
        if w == 0 || i + w > s.len() {
            None
        } else {
            let n = be_value(s.subrange(i, i + w)) - pow128(w as nat);
            if n < 0 || i + w + n > s.len() {
                None
            } else if be_value(s.take(i)) == id && k == 0 {
                Some(s.subrange(i + w, i + w + n))
            } else {
                find_elem(
                    s.skip(i + w + n),
                    id,
                    if be_value(s.take(i)) == id {
                        (k - 1) as nat
                    } else {
                        k
                    },
                )
            }
        }
    }
}

/// What the first element with the given identifier inside another one holds.
pub open spec fn within(s: Option<Seq<u8>>, id: nat) -> Option<Seq<u8>> {
    match s {
        Some(e) => find_elem(e, id, 0),
        None => None,
    }
}

proof fn lemma_first_byte(x: nat, n: nat, lo: nat, hi: nat)
    requires
        n >= 1,
        hi <= 256,
        lo * pow256((n - 1) as nat) <= x < hi * pow256((n - 1) as nat),
    ensures
        lo <= be_bytes(x, n)[0] < hi,
    decreases n,
{
    if n == 1 {
        assert(pow256(0) == 1);
        assert(be_bytes(x, 1) =~= be_bytes(x / 256, 0).push((x % 256) as u8));
        assert(be_bytes(x / 256, 0).len() == 0);
        assert(lo * 1 == lo && hi * 1 == hi) by (nonlinear_arith);
    } else {
        let p = pow256((n - 2) as nat);
        assert(pow256((n - 1) as nat) == 256 * p);
        assert(lo * (256 * p) == 256 * (lo * p)) by (nonlinear_arith);
        assert(hi * (256 * p) == 256 * (hi * p)) by (nonlinear_arith);
        lemma_first_byte(x / 256, (n - 1) as nat, lo, hi);
        assert(be_bytes(x, n)[0] == be_bytes(x / 256, (n - 1) as nat)[0]);
    }
}

/// Whether a number is an identifier: its first byte says how many bytes it takes.
pub open spec fn is_id(id: nat) -> bool {
    ||| 0x80 <= id <= 0xFF
    ||| 0x4000 <= id <= 0x7FFF
    ||| 0x20_0000 <= id <= 0x3F_FFFF
    ||| 0x1000_0000 <= id <= 0x1FFF_FFFF
}

proof fn lemma_id(id: nat)
    requires
        is_id(id),
    ensures
        1 <= uint(id).len() <= 4,
        id_width(uint(id)[0]) == uint(id).len(),
        be_value(uint(id)) == id,
{
    law_uint_round_trip(id);
    reveal_with_fuel(uint_len, 6);
    reveal_with_fuel(pow256, 5);
    if id <= 0xFF {
        lemma_first_byte(id, 1, 0x80, 0x100);
    } else if id <= 0x7FFF {
        lemma_first_byte(id, 2, 0x40, 0x80);
    } else if id <= 0x3F_FFFF {
        lemma_first_byte(id, 3, 0x20, 0x40);
    } else {
        lemma_first_byte(id, 4, 0x10, 0x20);
    }
}

proof fn lemma_size(v: nat)
    requires
        v < 0x100_0000_0000_0000,
    ensures
        1 <= vint(v).len() <= 8,
        size_width(vint(v)[0]) == vint(v).len(),
        be_value(vint(v)) - pow128(vint(v).len()) == v,
{
    law_vint_round_trip(v);
    reveal_with_fuel(pow256, 9);
    reveal_with_fuel(pow128, 9);
    let n = vint_len(v);
    let x = pow128(n) + v;
    assert(vint(v) == be_bytes(x, n));
    if n == 1 {
        lemma_first_byte(x, 1, 0x80, 0x100);
    } else if n == 2 {
        lemma_first_byte(x, 2, 0x40, 0x80);
    } else if n == 3 {
        lemma_first_byte(x, 3, 0x20, 0x40);
    } else if n == 4 {
        lemma_first_byte(x, 4, 0x10, 0x20);
    } else if n == 5 {
        lemma_first_byte(x, 5, 0x08, 0x10);
    } else if n == 6 {
        lemma_first_byte(x, 6, 0x04, 0x08);
    } else if n == 7 {
        lemma_first_byte(x, 7, 0x02, 0x04);
    } else {
        lemma_first_byte(x, 8, 0x01, 0x02);
    }
}

#[verifier::rlimit(30)]
proof fn lemma_first_elem(id: nat, data: Seq<u8>, rest: Seq<u8>, other: nat, k: nat)
    requires
        is_id(id),
        data.len() < 0x100_0000_0000_0000,
    ensures
        ({
            let s = elem(id, data) + rest;
            &&& find_elem(s, id, 0) == Some(data)
            &&& find_elem(s, id, k + 1) == find_elem(rest, id, k)
            &&& other != id ==> find_elem(s, other, k) == find_elem(rest, other, k)
        }),
{
    reveal(find_elem);
    lemma_id(id);
    lemma_size(data.len());
    let s = elem(id, data) + rest;
    let i = uint(id).len() as int;
    let w = vint(data.len()).len() as int;
    assert(s[0] == uint(id)[0]);
    assert(s[i] == vint(data.len())[0]);
    assert(s.take(i) =~= uint(id));
    assert(s.subrange(i, i + w) =~= vint(data.len()));
    assert(s.subrange(i + w, i + w + data.len()) =~= data);
    assert(s.skip(i + w + data.len()) =~= rest);
}

proof fn lemma_only_elem(id: nat, data: Seq<u8>)
    requires
        is_id(id),
        data.len() < 0x100_0000_0000_0000,
    ensures
        find_elem(elem(id, data), id, 0) == Some(data),
        elem(id, data).len() >= data.len(),
{
    let none = Seq::<u8>::empty();
    lemma_first_elem(id, data, none, id, 0);
    assert(elem(id, data) + none =~= elem(id, data));
}

// ---------------------------------------------------------------- structure

/// The limit that the widest size can tell.
pub open spec fn fits(s: Seq<u8>) -> bool {
    s.len() < 0x100_0000_0000_0000
}

/// The segment of a file.
pub open spec fn segment_of(file: Seq<u8>) -> Option<Seq<u8>> {
    within(Some(file), 0x18538067)
}

/// The description of track number `k` of a file.
pub open spec fn track_of(file: Seq<u8>, k: nat) -> Option<Seq<u8>> {
    match within(segment_of(file), 0x1654AE6B) {
        Some(t) => find_elem(t, 0xAE, k),
        None => None,
    }
}

/// A number that an element with the given identifier holds.
pub open spec fn number_of(s: Option<Seq<u8>>, id: nat) -> Option<nat> {
    match within(s, id) {
        Some(e) => Some(be_value(e)),
        None => None,
    }
}

proof fn lemma_segment(
    v: EncodedVideoView,
    audio: Option<AudioDataView>,
    webm: bool,
    n: int,
    json: Seq<u8>,
)
    requires
        fits(matroska(v, audio, webm, n, json)),
    ensures
        segment_of(matroska(v, audio, webm, n, json)) == Some(segment(v, audio, n, json)),
        fits(segment(v, audio, n, json)),
{
    let s = segment(v, audio, n, json);
    let file = matroska(v, audio, webm, n, json);
    reveal(ebml_header);
    let head = elem(0x4286, uint(1)) + elem(0x42F7, uint(1)) + elem(0x42F2, uint(4)) + elem(
        0x42F3,
        uint(8),
    ) + elem(
        0x4282,
        if webm {
            text("webm"@)
        } else {
            text("matroska"@)
        },
    ) + elem(0x4287, uint(2)) + elem(0x4285, uint(2));
    assert(file == elem(0x1A45DFA3, head) + elem(0x18538067, s));
    lemma_first_elem(0x1A45DFA3, head, elem(0x18538067, s), 0x18538067, 0);
    lemma_only_elem(0x18538067, s);
}

/// What the description of the tracks holds.
spec fn track_list(v: EncodedVideoView, audio: Option<AudioDataView>) -> Seq<u8> {
    match audio {
        Some(a) => video_entry(v) + audio_entry(a),
        None => video_entry(v),
    }
}

proof fn lemma_tracks(v: EncodedVideoView, audio: Option<AudioDataView>, n: int, json: Seq<u8>)
    requires
        fits(segment(v, audio, n, json)),
    ensures
        within(Some(segment(v, audio, n, json)), 0x1654AE6B) == Some(track_list(v, audio)),
        within(Some(segment(v, audio, n, json)), 0x1549A966) == Some(info_body(last_ms(n, v.fps))),
        fits(track_list(v, audio)),
{
    reveal(info);
    let ms = last_ms(n, v.fps);
    let t = track_list(v, audio);
    let tail = tags(json) + clusters(v, audio, cluster_plan(n as nat, v.fps), n);
    let s = segment(v, audio, n, json);
    assert(tracks(v, audio) == elem(0x1654AE6B, t));
    assert(info(ms) == elem(0x1549A966, info_body(ms)));
    assert(s =~= elem(0x1549A966, info_body(ms)) + (elem(0x1654AE6B, t) + tail));
    assert(elem(0x1654AE6B, t).len() >= t.len());
    assert(elem(0x1549A966, info_body(ms)).len() >= info_body(ms).len());
    lemma_first_elem(0x1549A966, info_body(ms), elem(0x1654AE6B, t) + tail, 0x1654AE6B, 0);
    lemma_first_elem(0x1654AE6B, t, tail, 0x1654AE6B, 0);
}

/// What the general information holds.
spec fn info_body(ms: nat) -> Seq<u8> {
    elem(0x2AD7B1, uint(1_000_000)) + elem(0x4D80, text("candy"@)) + elem(0x5741, text("candy"@))
        + elem(0x4489, double_bytes(ms))
}

/// What the description of the video holds.
spec fn video_part(v: EncodedVideoView) -> Seq<u8> {
    elem(0xB0, uint(v.width as nat)) + elem(0xBA, uint(v.height as nat))
}

/// What the entry of the video track holds.
spec fn video_list(v: EncodedVideoView) -> Seq<u8> {
    elem(0xD7, uint(1)) + elem(0x73C5, uint(1)) + elem(0x83, uint(1)) + elem(0x9C, uint(0)) + elem(
        0x86,
        if v.is_av1 {
            text("V_AV1"@)
        } else {
            text("V_MPEG4/ISO/AVC"@)
        },
    ) + elem(0x63A2, v.codec_private) + elem(0x536E, text("candy video"@)) + elem(
        0xE0,
        video_part(v),
    )
}

/// What the description of the sound holds.
spec fn audio_part(a: AudioDataView) -> Seq<u8> {
    elem(0xB5, double_bytes(a.sample_rate as nat)) + elem(0x9F, uint(a.channels as nat))
}

/// What the entry of the audio track holds.
spec fn audio_list(a: AudioDataView) -> Seq<u8> {
    elem(0xD7, uint(2)) + elem(0x73C5, uint(2)) + elem(0x83, uint(2)) + elem(0x9C, uint(0)) + elem(
        0x86,
        if a.codec == AudioCodec::Opus {
            text("A_Opus"@)
        } else {
            text("A_AAC"@)
        },
    ) + elem(0x63A2, a.codec_private) + elem(0x536E, text("candy audio"@)) + elem(
        0xE1,
        audio_part(a),
    )
}

proof fn lemma_track(v: EncodedVideoView, audio: Option<AudioDataView>)
    requires
        fits(track_list(v, audio)),
    ensures
        find_elem(track_list(v, audio), 0xAE, 0) == Some(video_list(v)),
        fits(video_list(v)),
        audio matches Some(a) ==> find_elem(track_list(v, audio), 0xAE, 1) == Some(audio_list(a))
            && fits(audio_list(a)),
        audio is None ==> find_elem(track_list(v, audio), 0xAE, 1) is None,
{
    reveal(video_entry);
    reveal(audio_entry);
    let none = Seq::<u8>::empty();
    let s = track_list(v, audio);
    assert(video_entry(v) == elem(0xAE, video_list(v)));
    assert(elem(0xAE, video_list(v)).len() >= video_list(v).len());
    match audio {
        Some(a) => {
            assert(audio_entry(a) == elem(0xAE, audio_list(a)));
            assert(elem(0xAE, audio_list(a)).len() >= audio_list(a).len());
            lemma_first_elem(0xAE, video_list(v), audio_entry(a), 0xAE, 0);
            lemma_only_elem(0xAE, audio_list(a));
        },
        None => {
            lemma_first_elem(0xAE, video_list(v), none, 0xAE, 0);
            assert(elem(0xAE, video_list(v)) + none =~= elem(0xAE, video_list(v)));
            assert(find_elem(none, 0xAE, 0) is None) by {
                reveal(find_elem);
            }
        },
    }
}

/// The parts of a track entry: eight elements with the given contents.
spec fn entry(
    number: Seq<u8>,
    uid: Seq<u8>,
    kind: Seq<u8>,
    lacing: Seq<u8>,
    codec: Seq<u8>,
    private: Seq<u8>,
    name: Seq<u8>,
    part: nat,
    settings: Seq<u8>,
) -> Seq<u8> {
    elem(0xD7, number) + elem(0x73C5, uid) + elem(0x83, kind) + elem(0x9C, lacing) + elem(
        0x86,
        codec,
    ) + elem(0x63A2, private) + elem(0x536E, name) + elem(part, settings)
}

proof fn lemma_entry(
    number: Seq<u8>,
    uid: Seq<u8>,
    kind: Seq<u8>,
    lacing: Seq<u8>,
    codec: Seq<u8>,
    private: Seq<u8>,
    name: Seq<u8>,
    part: nat,
    settings: Seq<u8>,
)
    requires
        fits(entry(number, uid, kind, lacing, codec, private, name, part, settings)),
        part == 0xE0 || part == 0xE1,
    ensures
        ({
            let s = Some(entry(number, uid, kind, lacing, codec, private, name, part, settings));
            &&& within(s, 0xD7) == Some(number)
            &&& within(s, 0x83) == Some(kind)
            &&& within(s, 0x86) == Some(codec)
            &&& within(s, 0x63A2) == Some(private)
            &&& within(s, part) == Some(settings)
            &&& fits(settings)
        }),
{
    let s = entry(number, uid, kind, lacing, codec, private, name, part, settings);
    let s7 = elem(part, settings);
    let s6 = elem(0x536E, name) + s7;
    let s5 = elem(0x63A2, private) + s6;
    let s4 = elem(0x86, codec) + s5;
    let s3 = elem(0x9C, lacing) + s4;
    let s2 = elem(0x83, kind) + s3;
    let s1 = elem(0x73C5, uid) + s2;
    assert(s =~= elem(0xD7, number) + s1);
    lemma_first_elem(0xD7, number, s1, 0x83, 0);
    lemma_first_elem(0xD7, number, s1, 0x86, 0);
    lemma_first_elem(0xD7, number, s1, 0x63A2, 0);
    lemma_first_elem(0xD7, number, s1, part, 0);
    lemma_first_elem(0x73C5, uid, s2, 0x83, 0);
    lemma_first_elem(0x73C5, uid, s2, 0x86, 0);
    lemma_first_elem(0x73C5, uid, s2, 0x63A2, 0);
    lemma_first_elem(0x73C5, uid, s2, part, 0);
    lemma_first_elem(0x83, kind, s3, 0x86, 0);
    lemma_first_elem(0x83, kind, s3, 0x63A2, 0);
    lemma_first_elem(0x83, kind, s3, part, 0);
    lemma_first_elem(0x9C, lacing, s4, 0x86, 0);
    lemma_first_elem(0x9C, lacing, s4, 0x63A2, 0);
    lemma_first_elem(0x9C, lacing, s4, part, 0);
    lemma_first_elem(0x86, codec, s5, 0x63A2, 0);
    lemma_first_elem(0x86, codec, s5, part, 0);
    lemma_first_elem(0x63A2, private, s6, part, 0);
    lemma_first_elem(0x536E, name, s7, part, 0);
    lemma_only_elem(part, settings);
}

proof fn lemma_pair(id: nat, a: Seq<u8>, other: nat, b: Seq<u8>)
    requires
        is_id(id),
        is_id(other),
        id != other,
        fits(elem(id, a) + elem(other, b)),
    ensures
        within(Some(elem(id, a) + elem(other, b)), id) == Some(a),
        within(Some(elem(id, a) + elem(other, b)), other) == Some(b),
{
    lemma_first_elem(id, a, elem(other, b), other, 0);
    lemma_only_elem(other, b);
}

// ---------------------------------------------------------------- tracks

/// The video track of a Matroska file is read as it was described: it is track 1, of type 1, with
/// the codec and its configuration, and its picture has the width and the height of the video.
pub proof fn law_video_track_read(
    v: EncodedVideoView,
    audio: Option<AudioDataView>,
    webm: bool,
    n: int,
    json: Seq<u8>,
)
    requires
        fits(matroska(v, audio, webm, n, json)),
    ensures
        ({
            let t = track_of(matroska(v, audio, webm, n, json), 0);
            &&& number_of(t, 0xD7) == Some(1nat)
            &&& number_of(t, 0x83) == Some(1nat)
            &&& within(t, 0x86) == Some(
                if v.is_av1 {
                    text("V_AV1"@)
                } else {
                    text("V_MPEG4/ISO/AVC"@)
                },
            )
            &&& within(t, 0x63A2) == Some(v.codec_private)
            &&& number_of(within(t, 0xE0), 0xB0) == Some(v.width as nat)
            &&& number_of(within(t, 0xE0), 0xBA) == Some(v.height as nat)
        }),
{
    lemma_segment(v, audio, webm, n, json);
    lemma_tracks(v, audio, n, json);
    lemma_track(v, audio);
    lemma_entry(
        uint(1),
        uint(1),
        uint(1),
        uint(0),
        if v.is_av1 {
            text("V_AV1"@)
        } else {
            text("V_MPEG4/ISO/AVC"@)
        },
        v.codec_private,
        text("candy video"@),
        0xE0,
        video_part(v),
    );
    lemma_pair(0xB0, uint(v.width as nat), 0xBA, uint(v.height as nat));
    law_uint_round_trip(1);
    law_uint_round_trip(v.width as nat);
    law_uint_round_trip(v.height as nat);
}

/// The audio track of a Matroska file is read as it was described: it is track 2, of type 2, with
/// the codec, its configuration, the sample rate as a double and the number of channels. A file
/// without audio has no such track.
pub proof fn law_audio_track_read(
    v: EncodedVideoView,
    audio: Option<AudioDataView>,
    webm: bool,
    n: int,
    json: Seq<u8>,
)
    requires
        fits(matroska(v, audio, webm, n, json)),
    ensures
        ({
            let t = track_of(matroska(v, audio, webm, n, json), 1);
            &&& audio is None ==> t is None
            &&& audio matches Some(a) ==> {
                &&& number_of(t, 0xD7) == Some(2nat)
                &&& number_of(t, 0x83) == Some(2nat)
                &&& within(t, 0x86) == Some(
                    if a.codec == AudioCodec::Opus {
                        text("A_Opus"@)
                    } else {
                        text("A_AAC"@)
                    },
                )
                &&& within(t, 0x63A2) == Some(a.codec_private)
                &&& number_of(within(t, 0xE1), 0x9F) == Some(a.channels as nat)
                &&& number_of(within(t, 0xE1), 0xB5) matches Some(bits) && is_double(
                    bits,
                    a.sample_rate as nat,
                )
            }
        }),
{
    lemma_segment(v, audio, webm, n, json);
    lemma_tracks(v, audio, n, json);
    lemma_track(v, audio);
    if let Some(a) = audio {
        lemma_entry(
            uint(2),
            uint(2),
            uint(2),
            uint(0),
            if a.codec == AudioCodec::Opus {
                text("A_Opus"@)
            } else {
                text("A_AAC"@)
            },
            a.codec_private,
            text("candy audio"@),
            0xE1,
            audio_part(a),
        );
        lemma_pair(0xB5, double_bytes(a.sample_rate as nat), 0x9F, uint(a.channels as nat));
        law_uint_round_trip(2);
        law_uint_round_trip(a.channels as nat);
        law_double(a.sample_rate as nat);
    }
}

/// Whether the bits are those of the IEEE 754 double with the given whole value: an exponent of 11
/// bits, less 1023, and behind it 52 bits that follow a leading one.
pub open spec fn is_double(bits: nat, n: nat) -> bool {
    if n == 0 {
        bits == 0
    } else {
        let e = bits / 0x10_0000_0000_0000;
        let f = bits % 0x10_0000_0000_0000;
        &&& 1023 <= e <= 1075
        &&& (0x10_0000_0000_0000 + f) == n * vstd::arithmetic::power2::pow2((1075 - e) as nat)
    }
}

proof fn lemma_log2_below(n: nat, k: nat)
    requires
        0 < n,
        n < vstd::arithmetic::power2::pow2(k),
    ensures
        log2(n) < k,
        vstd::arithmetic::power2::pow2(log2(n)) <= n < 2 * vstd::arithmetic::power2::pow2(log2(n)),
    decreases n,
{
    vstd::arithmetic::power2::lemma2_to64();
    vstd::arithmetic::power2::lemma2_to64_rest();
    if n > 1 {
        assert(k > 0) by {
            if k == 0 {
                assert(vstd::arithmetic::power2::pow2(0) == 1);
            }
        }
        vstd::arithmetic::power2::lemma_pow2_unfold(k);
        lemma_log2_below(n / 2, (k - 1) as nat);
        vstd::arithmetic::power2::lemma_pow2_unfold(log2(n));
    } else {
        assert(vstd::arithmetic::power2::pow2(0) == 1);
        if k == 0 {
            assert(false);
        }
    }
}

/// Whole numbers are written as the doubles with their value.
pub proof fn law_double(n: nat)
    requires
        n < 0x10_0000_0000_0000,
    ensures
        is_double(be_value(double_bytes(n)), n),
{
    vstd::arithmetic::power2::lemma2_to64();
    vstd::arithmetic::power2::lemma2_to64_rest();
    let bits = double_bits(n);
    assert(pow256(8) == 0x1_0000_0000_0000_0000) by {
        reveal_with_fuel(pow256, 9);
    }
    lemma_be_round_trip(bits, 8);
    if n > 0 {
        let e = log2(n);
        lemma_log2_below(n, 52);
        let p = vstd::arithmetic::power2::pow2((52 - e) as nat);
        vstd::arithmetic::power2::lemma_pow2_adds(e, (52 - e) as nat);
        let m = n * p;
        let q = vstd::arithmetic::power2::pow2(e);
        assert(q * p == 0x10_0000_0000_0000);
        assert(q * p <= n * p) by (nonlinear_arith)
            requires
                q <= n,
        ;
        assert(n * p < 2 * q * p) by (nonlinear_arith)
            requires
                n < 2 * q,
                p > 0,
        ;
        assert(2 * q * p == 2 * (q * p)) by (nonlinear_arith);
        let f = m - 0x10_0000_0000_0000;
        assert(bits == (1023 + e) * 0x10_0000_0000_0000 + f);
        assert(0 <= f < 0x10_0000_0000_0000);
        assert(bits < 0x1_0000_0000_0000_0000);
        assert(bits / 0x10_0000_0000_0000 == 1023 + e);
        assert(bits % 0x10_0000_0000_0000 == f);
        assert(be_value(double_bytes(n)) == bits);
        assert(1075 - (1023 + e) == 52 - e);
    }
}

/// The general information says that times are in milliseconds, and when the last frame starts.
pub proof fn law_info_read(
    v: EncodedVideoView,
    audio: Option<AudioDataView>,
    webm: bool,
    n: int,
    json: Seq<u8>,
    ms: nat,
)
    requires
        fits(matroska(v, audio, webm, n, json)),
        v.fps > 0,
        0 < n < 0x1_0000_0000,
        ms * v.fps <= (n - 1) * 1000 < (ms + 1) * v.fps,
    ensures
        ({
            let i = within(segment_of(matroska(v, audio, webm, n, json)), 0x1549A966);
            &&& number_of(i, 0x2AD7B1) == Some(1_000_000nat)
            &&& number_of(i, 0x4489) matches Some(bits) && is_double(bits, ms)
        }),
{
    lemma_segment(v, audio, webm, n, json);
    lemma_tracks(v, audio, n, json);
    lemma_frame_ms(n - 1, v.fps, ms as int);
    assert(ms <= (n - 1) * 1000) by (nonlinear_arith)
        requires
            ms * v.fps <= (n - 1) * 1000,
            v.fps >= 1,
    ;
    law_double(ms);
    let s = info_body(ms);
    let c = text("candy"@);
    let s3 = elem(0x4489, double_bytes(ms));
    let s2 = elem(0x5741, c) + s3;
    let s1 = elem(0x4D80, c) + s2;
    assert(c.len() == 5) by {
        reveal_strlit("candy");
        vstd::utf8::is_ascii_chars_encode_utf8("candy"@);
    }
    assert(s =~= elem(0x2AD7B1, uint(1_000_000)) + s1);
    assert(uint(1_000_000).len() <= 8) by {
        reveal_with_fuel(uint_len, 5);
    }
    lemma_first_elem(0x2AD7B1, uint(1_000_000), s1, 0x4489, 0);
    lemma_first_elem(0x4D80, c, s2, 0x4489, 0);
    lemma_first_elem(0x5741, c, s3, 0x4489, 0);
    lemma_only_elem(0x4489, double_bytes(ms));
    law_uint_round_trip(1_000_000);
}

proof fn lemma_frame_ms(i: int, fps: u32, ms: int)
    requires
        fps > 0,
        ms * fps <= i * 1000 < (ms + 1) * fps,
    ensures
        frame_ms(i, fps) == ms,
{
    let f = fps as int;
    let t = i * 1000;
    assert(t / f == ms) by (nonlinear_arith)
        requires
            f > 0,
            ms * f <= t < (ms + 1) * f,
    ;
}

// ---------------------------------------------------------------- blocks

/// What block number `m` of cluster number `k` of a file holds: its track, its time in two bytes,
/// its flags and its data.
pub open spec fn block_of(file: Seq<u8>, k: nat, m: nat) -> Option<Seq<u8>> {
    match cluster_of(file, k) {
        Some(c) => find_elem(c, 0xA3, m),
        None => None,
    }
}

/// What cluster number `k` of a file holds.
pub open spec fn cluster_of(file: Seq<u8>, k: nat) -> Option<Seq<u8>> {
    match segment_of(file) {
        Some(s) => find_elem(s, 0x1F43B675, k),
        None => None,
    }
}

/// When a block starts: its own time behind that of its cluster.
pub open spec fn block_time(file: Seq<u8>, k: nat, m: nat) -> int {
    number_of(cluster_of(file, k), 0xE7)->0 + block_of(file, k, m)->0[1] * 256 + block_of(
        file,
        k,
        m,
    )->0[2]
}

proof fn lemma_clusters_front(
    v: EncodedVideoView,
    audio: Option<AudioDataView>,
    plan: Seq<(int, int)>,
    n: int,
)
    requires
        plan.len() > 0,
    ensures
        clusters(v, audio, plan, n) == cluster(v, audio, plan[0].0, plan[0].1, n) + clusters(
            v,
            audio,
            plan.skip(1),
            n,
        ),
    decreases plan.len(),
{
    let none = Seq::<u8>::empty();
    let c = cluster(v, audio, plan[0].0, plan[0].1, n);
    if plan.len() == 1 {
        assert(clusters(v, audio, plan.drop_last(), n) =~= none);
        assert(clusters(v, audio, plan.skip(1), n) =~= none);
        assert(none + c =~= c + none);
    } else {
        lemma_clusters_front(v, audio, plan.drop_last(), n);
        assert(plan.drop_last().skip(1) =~= plan.skip(1).drop_last());
        assert(plan.skip(1).last() == plan.last());
        let a = clusters(v, audio, plan.skip(1).drop_last(), n);
        let l = cluster(v, audio, plan.last().0, plan.last().1, n);
        assert(c + a + l =~= c + (a + l));
    }
}

proof fn lemma_nth_cluster(
    v: EncodedVideoView,
    audio: Option<AudioDataView>,
    plan: Seq<(int, int)>,
    n: int,
    k: int,
)
    requires
        0 <= k < plan.len(),
        fits(clusters(v, audio, plan, n)),
    ensures
        find_elem(clusters(v, audio, plan, n), 0x1F43B675, k as nat) == Some(
            cluster_content(v, audio, plan[k].0, plan[k].1, n),
        ),
        fits(cluster_content(v, audio, plan[k].0, plan[k].1, n)),
    decreases plan.len(),
{
    lemma_clusters_front(v, audio, plan, n);
    let rest = clusters(v, audio, plan.skip(1), n);
    let content = cluster_content(v, audio, plan[0].0, plan[0].1, n);
    assert(elem(0x1F43B675, content).len() >= content.len());
    if k == 0 {
        lemma_first_elem(0x1F43B675, content, rest, 0x1F43B675, 0);
    } else {
        lemma_first_elem(0x1F43B675, content, rest, 0x1F43B675, (k - 1) as nat);
        lemma_nth_cluster(v, audio, plan.skip(1), n, k - 1);
        assert(plan.skip(1)[k - 1] == plan[k]);
    }
}

proof fn lemma_blocks_front(v: EncodedVideoView, start_ms: int, first: int, end: int)
    requires
        first < end,
    ensures
        video_blocks(v, start_ms, first, end) == elem(
            0xA3,
            block(1, frame_ms(first, v.fps) - start_ms, v.keyframes[first], v.frames[first]),
        ) + video_blocks(v, start_ms, first + 1, end),
    decreases end - first,
{
    let none = Seq::<u8>::empty();
    let b = elem(
        0xA3,
        block(1, frame_ms(first, v.fps) - start_ms, v.keyframes[first], v.frames[first]),
    );
    if end == first + 1 {
        assert(video_blocks(v, start_ms, first, first) =~= none);
        assert(video_blocks(v, start_ms, end, end) =~= none);
        assert(none + b =~= b + none);
    } else {
        lemma_blocks_front(v, start_ms, first, end - 1);
        let a = video_blocks(v, start_ms, first + 1, end - 1);
        let l = elem(
            0xA3,
            block(1, frame_ms(end - 1, v.fps) - start_ms, v.keyframes[end - 1], v.frames[end - 1]),
        );
        assert(b + a + l =~= b + (a + l));
    }
}

proof fn lemma_nth_block(
    v: EncodedVideoView,
    start_ms: int,
    first: int,
    end: int,
    rest: Seq<u8>,
    i: int,
    m: nat,
)
    requires
        first <= i <= end,
        fits(video_blocks(v, start_ms, first, end)),
    ensures
        ({
            let s = video_blocks(v, start_ms, first, end) + rest;
            &&& i < end ==> find_elem(s, 0xA3, (i - first) as nat) == Some(
                block(1, frame_ms(i, v.fps) - start_ms, v.keyframes[i], v.frames[i]),
            )
            &&& find_elem(s, 0xA3, (end - first + m) as nat) == find_elem(rest, 0xA3, m)
        }),
    decreases end - first,
{
    let s = video_blocks(v, start_ms, first, end) + rest;
    if first == end {
        assert(s =~= rest);
    } else {
        lemma_blocks_front(v, start_ms, first, end);
        let b = block(1, frame_ms(first, v.fps) - start_ms, v.keyframes[first], v.frames[first]);
        let more = video_blocks(v, start_ms, first + 1, end);
        assert(elem(0xA3, b).len() >= b.len());
        assert(s =~= elem(0xA3, b) + (more + rest));
        lemma_first_elem(0xA3, b, more + rest, 0xA3, (end - first - 1 + m) as nat);
        if i == first {
            lemma_nth_block(v, start_ms, first + 1, end, rest, first + 1, m);
        } else {
            lemma_nth_block(v, start_ms, first + 1, end, rest, i, m);
            lemma_first_elem(0xA3, b, more + rest, 0xA3, (i - first - 1) as nat);
        }
    }
}

proof fn lemma_cluster_read(
    v: EncodedVideoView,
    audio: Option<AudioDataView>,
    webm: bool,
    n: int,
    json: Seq<u8>,
    k: int,
)
    requires
        fits(matroska(v, audio, webm, n, json)),
        n >= 0,
        0 <= k < cluster_plan(n as nat, v.fps).len(),
    ensures
        ({
            let (first, end) = cluster_plan(n as nat, v.fps)[k];
            let c = cluster_content(v, audio, first, end, n);
            &&& cluster_of(matroska(v, audio, webm, n, json), k as nat) == Some(c)
            &&& fits(c)
        }),
{
    let plan = cluster_plan(n as nat, v.fps);
    lemma_segment(v, audio, webm, n, json);
    reveal(info);
    reveal(tags);
    let ms = last_ms(n, v.fps);
    let t = track_list(v, audio);
    let note = elem(
        0x7373,
        elem(
            0x67C8,
            elem(0x45A3, text("candy-meta"@)) + elem(0x447A, text("und"@)) + elem(0x4484, json),
        ),
    );
    let all = clusters(v, audio, plan, n);
    let s = segment(v, audio, n, json);
    let x = elem(0x1549A966, info_body(ms));
    let y = elem(0x1654AE6B, t);
    let z = elem(0x1254C367, note);
    assert(tracks(v, audio) == y);
    assert(s =~= x + (y + (z + all)));
    assert(x.len() >= info_body(ms).len());
    assert(y.len() >= t.len());
    assert(z.len() >= note.len());
    lemma_first_elem(0x1549A966, info_body(ms), y + (z + all), 0x1F43B675, k as nat);
    lemma_first_elem(0x1654AE6B, t, z + all, 0x1F43B675, k as nat);
    lemma_first_elem(0x1254C367, note, all, 0x1F43B675, k as nat);
    lemma_nth_cluster(v, audio, plan, n, k);
}

proof fn lemma_cluster_time(
    v: EncodedVideoView,
    audio: Option<AudioDataView>,
    first: int,
    end: int,
    n: int,
    m: nat,
)
    requires
        fits(cluster_content(v, audio, first, end, n)),
    ensures
        ({
            let c = cluster_content(v, audio, first, end, n);
            let start = frame_ms(first, v.fps);
            let sound = match audio {
                Some(a) => audio_blocks(a.frames, first, end, n, v.fps),
                None => Seq::empty(),
            };
            &&& number_of(Some(c), 0xE7) == Some(start as nat)
            &&& find_elem(c, 0xA3, m) == find_elem(
                video_blocks(v, start, first, end) + sound,
                0xA3,
                m,
            )
            &&& fits(video_blocks(v, start, first, end))
            &&& fits(sound)
        }),
{
    let c = cluster_content(v, audio, first, end, n);
    let start = frame_ms(first, v.fps);
    let sound = match audio {
        Some(a) => audio_blocks(a.frames, first, end, n, v.fps),
        None => Seq::empty(),
    };
    let t = uint(start as nat);
    let rest = video_blocks(v, start, first, end) + sound;
    assert(c =~= elem(0xE7, t) + rest);
    assert(elem(0xE7, t).len() >= t.len());
    lemma_first_elem(0xE7, t, rest, 0xA3, m);
    law_uint_round_trip(start as nat);
}

proof fn lemma_block_parts(track: nat, rel: int, key: bool, data: Seq<u8>)
    requires
        track == 1 || track == 2,
        0 <= rel < 0x1_0000,
    ensures
        ({
            let b = block(track, rel, key, data);
            &&& b.len() == data.len() + 4
            &&& b[0] == 0x80 + track
            &&& b[1] * 256 + b[2] == rel
            &&& b[3] == if key {
                0x80u8
            } else {
                0
            }
            &&& b.skip(4) == data
        }),
{
    let b = block(track, rel, key, data);
    reveal_with_fuel(pow128, 2);
    reveal_with_fuel(be_bytes, 3);
    assert(vint(track) =~= seq![(0x80 + track) as u8]);
    assert(be16(rel) =~= seq![(rel / 256 % 256) as u8, (rel % 256) as u8]);
    assert(b.skip(4) =~= data);
}

/// Every frame is found in a block of the video track, with its data, its key frame flag and its
/// time: the whole millisecond in which it starts.
pub proof fn law_frame_read(
    v: EncodedVideoView,
    audio: Option<AudioDataView>,
    webm: bool,
    n: int,
    json: Seq<u8>,
    i: int,
)
    requires
        fits(matroska(v, audio, webm, n, json)),
        v.fps > 0,
        0 <= i < n,
    ensures
        exists|k: nat, m: nat|
            #[trigger] block_of(matroska(v, audio, webm, n, json), k, m) is Some && ({
                let file = matroska(v, audio, webm, n, json);
                let b = block_of(file, k, m)->0;
                let t = block_time(file, k, m);
                &&& b[0] == 0x81
                &&& b[3] == if v.keyframes[i] {
                    0x80u8
                } else {
                    0
                }
                &&& b.skip(4) == v.frames[i]
                &&& t * v.fps <= i * 1000 < (t + 1) * v.fps
            }),
{
    let file = matroska(v, audio, webm, n, json);
    let plan = cluster_plan(n as nat, v.fps);
    crate::matroska::law_cluster_plan(n as nat, v.fps);
    let k = crate::matroska::lemma_cluster_from(n as nat, v.fps, i, 0);
    let (first, end) = plan[k];
    let start = frame_ms(first, v.fps);
    let rel = frame_ms(i, v.fps) - start;
    assert(0 <= rel <= 30_000);
    lemma_cluster_read(v, audio, webm, n, json, k);
    let m = (i - first) as nat;
    lemma_cluster_time(v, audio, first, end, n, m);
    let sound = match audio {
        Some(a) => audio_blocks(a.frames, first, end, n, v.fps),
        None => Seq::empty(),
    };
    lemma_nth_block(v, start, first, end, sound, i, 0);
    lemma_block_parts(1, rel, v.keyframes[i], v.frames[i]);
    let b = block(1, rel, v.keyframes[i], v.frames[i]);
    assert(block_of(file, k as nat, m) == Some(b));
    assert(start >= 0) by {
        lemma_ms_bounds(first, v.fps);
    }
    lemma_ms_bounds(i, v.fps);
    assert(block_time(file, k as nat, m) == frame_ms(i, v.fps));
}

proof fn lemma_ms_bounds(i: int, fps: u32)
    requires
        fps > 0,
        i >= 0,
    ensures
        frame_ms(i, fps) * fps <= i * 1000 < (frame_ms(i, fps) + 1) * fps,
        frame_ms(i, fps) >= 0,
{
    let f = fps as int;
    let t = i * 1000;
    assert(t / f * f <= t < (t / f + 1) * f && t / f >= 0) by (nonlinear_arith)
        requires
            f > 0,
            t >= 0,
    ;
}

proof fn lemma_audio_front(
    frames: Seq<crate::audio::AudioFrameView>,
    first: int,
    end: int,
    n: int,
    fps: u32,
)
    requires
        frames.len() > 0,
    ensures
        audio_blocks(frames, first, end, n, fps) == (if in_cluster(
            frames[0].timestamp_ms as int,
            first,
            end,
            n,
            fps,
        ) {
            elem(
                0xA3,
                block(
                    2,
                    frames[0].timestamp_ms as int - frame_ms(first, fps),
                    false,
                    frames[0].data,
                ),
            )
        } else {
            Seq::empty()
        }) + audio_blocks(frames.skip(1), first, end, n, fps),
    decreases frames.len(),
{
    let none = Seq::<u8>::empty();
    let whole = audio_blocks(frames, first, end, n, fps);
    if frames.len() == 1 {
        assert(frames.drop_last() =~= Seq::empty());
        assert(frames.skip(1) =~= Seq::empty());
        assert(audio_blocks(frames.drop_last(), first, end, n, fps) =~= none);
        assert(frames.last() == frames[0]);
        let b = elem(
            0xA3,
            block(2, frames[0].timestamp_ms as int - frame_ms(first, fps), false, frames[0].data),
        );
        assert(none + b =~= b + none);
        assert(none + none =~= none);
    } else {
        lemma_audio_front(frames.drop_last(), first, end, n, fps);
        assert(frames.drop_last().skip(1) =~= frames.skip(1).drop_last());
        assert(frames.skip(1).last() == frames.last());
        assert(frames.drop_last()[0] == frames[0]);
        let a = audio_blocks(frames.skip(1).drop_last(), first, end, n, fps);
        let x = if in_cluster(frames[0].timestamp_ms as int, first, end, n, fps) {
            elem(
                0xA3,
                block(
                    2,
                    frames[0].timestamp_ms as int - frame_ms(first, fps),
                    false,
                    frames[0].data,
                ),
            )
        } else {
            none
        };
        let l = elem(
            0xA3,
            block(
                2,
                frames.last().timestamp_ms as int - frame_ms(first, fps),
                false,
                frames.last().data,
            ),
        );
        assert(x + a + l =~= x + (a + l));
    }
}

proof fn lemma_nth_packet(
    frames: Seq<crate::audio::AudioFrameView>,
    first: int,
    end: int,
    n: int,
    fps: u32,
    j: int,
) -> (m: nat)
    requires
        0 <= j < frames.len(),
        in_cluster(frames[j].timestamp_ms as int, first, end, n, fps),
        fits(audio_blocks(frames, first, end, n, fps)),
    ensures
        find_elem(audio_blocks(frames, first, end, n, fps), 0xA3, m) == Some(
            block(2, frames[j].timestamp_ms as int - frame_ms(first, fps), false, frames[j].data),
        ),
    decreases frames.len(),
{
    lemma_audio_front(frames, first, end, n, fps);
    let rest = audio_blocks(frames.skip(1), first, end, n, fps);
    let b = block(2, frames[0].timestamp_ms as int - frame_ms(first, fps), false, frames[0].data);
    assert(elem(0xA3, b).len() >= b.len());
    let here = in_cluster(frames[0].timestamp_ms as int, first, end, n, fps);
    if j == 0 {
        lemma_first_elem(0xA3, b, rest, 0xA3, 0);
        0
    } else {
        assert(frames.skip(1)[j - 1] == frames[j]);
        let m = lemma_nth_packet(frames.skip(1), first, end, n, fps, j - 1);
        if here {
            lemma_first_elem(0xA3, b, rest, 0xA3, m);
            m + 1
        } else {
            assert(Seq::<u8>::empty() + rest =~= rest);
            m
        }
    }
}

/// Every audio packet that starts no later than the last frame is found in a block of the audio
/// track, with its data and its time.
pub proof fn law_packet_read(
    v: EncodedVideoView,
    a: AudioDataView,
    webm: bool,
    n: int,
    json: Seq<u8>,
    j: int,
)
    requires
        fits(matroska(v, Some(a), webm, n, json)),
        v.fps > 0,
        0 < n,
        0 <= j < a.frames.len(),
        a.frames[j].timestamp_ms * v.fps <= (n - 1) * 1000,
    ensures
        exists|k: nat, m: nat|
            #[trigger] block_of(matroska(v, Some(a), webm, n, json), k, m) is Some && ({
                let file = matroska(v, Some(a), webm, n, json);
                let b = block_of(file, k, m)->0;
                &&& b[0] == 0x82
                &&& b.skip(4) == a.frames[j].data
                &&& block_time(file, k, m) == a.frames[j].timestamp_ms
            }),
{
    let file = matroska(v, Some(a), webm, n, json);
    let plan = cluster_plan(n as nat, v.fps);
    let ms = a.frames[j].timestamp_ms as int;
    crate::matroska::law_cluster_plan(n as nat, v.fps);
    let fps = v.fps as int;
    let total = (n - 1) * 1000;
    assert(ms <= total / fps) by (nonlinear_arith)
        requires
            ms * fps <= total,
            fps > 0,
    ;
    lemma_ms_bounds(0, v.fps);
    assert(frame_ms(0, v.fps) == 0) by {
        vstd::arithmetic::div_mod::lemma_div_basics(fps);
    }
    let k = crate::matroska::lemma_cluster_at(n as nat, v.fps, ms, 0);
    let (first, end) = plan[k];
    let start = frame_ms(first, v.fps);
    lemma_ms_bounds(first, v.fps);
    lemma_cluster_span(n as nat, v.fps, k, ms);
    lemma_cluster_read(v, Some(a), webm, n, json, k);
    let sound = audio_blocks(a.frames, first, end, n, v.fps);
    lemma_cluster_time(v, Some(a), first, end, n, 0);
    let m = lemma_nth_packet(a.frames, first, end, n, v.fps, j);
    let at = (end - first + m) as nat;
    lemma_cluster_time(v, Some(a), first, end, n, at);
    lemma_nth_block(v, start, first, end, sound, first, m);
    lemma_block_parts(2, ms - start, false, a.frames[j].data);
    let b = block(2, ms - start, false, a.frames[j].data);
    assert(block_of(file, k as nat, at) == Some(b));
    assert(block_time(file, k as nat, at) == ms);
}

proof fn lemma_cluster_span(n: nat, fps: u32, k: int, ms: int)
    requires
        fps > 0,
        n > 0,
        0 <= k < cluster_plan(n, fps).len(),
        in_cluster(ms, cluster_plan(n, fps)[k].0, cluster_plan(n, fps)[k].1, n as int, fps),
    ensures
        0 <= ms - frame_ms(cluster_plan(n, fps)[k].0, fps) < 0x8000,
{
    let plan = cluster_plan(n, fps);
    crate::matroska::law_cluster_plan(n, fps);
    let (first, end) = plan[k];
    let last = end - 1;
    assert(0 <= frame_ms(last, fps) - frame_ms(first, fps) <= 30_000);
    lemma_ms_bounds(last, fps);
    lemma_ms_bounds(end, fps);
    let x = frame_ms(last, fps);
    let y = frame_ms(end, fps);
    let f = fps as int;
    assert(y <= x + 1001) by (nonlinear_arith)
        requires
            y * f <= (last + 1) * 1000,
            last * 1000 < (x + 1) * f,
            f >= 1,
    ;
    if end >= n {
        assert(last == n - 1);
    }
}

} // verus!
