//! Matroska (WebM / MKV) writer.
//!
//! AV1 or H.264 video, optionally Opus or AAC audio.

use vstd::prelude::*;
use crate::audio::{audio_view, AudioCodec, AudioData, AudioDataView, AudioFrameView};
use crate::bytes::{
    be16, holds_piece, lemma_be_bytes_len, lemma_empty_add, lemma_piece_in_middle, lemma_piece_self,
    low32, push_all, push_u16, text, views, wrap32,
};
use crate::diag::CandyError;
use crate::ebml::{
    double_bytes, ebml_elem, ebml_vint, element, element_size, f64_to_bytes, law_vint_len,
    u64_to_bytes, uint, uint_len, vint, vint_len, vint_size,
};
use crate::meta::PrivateMeta;
use crate::mp4::{empty_video_error, nats, shim, video_shim};
use crate::video::{EncodedVideo, EncodedVideoFile, EncodedVideoView};

verus! {

broadcast use lemma_empty_add;

/// The element with the given id.
pub open spec fn elem(id: nat, data: Seq<u8>) -> Seq<u8> {
    element(uint(id), data)
}

fn build_elem(id: u32, data: &[u8]) -> (r: Vec<u8>)
    ensures
        r@ == elem(id as nat, data@),
{
    ebml_elem(u64_to_bytes(id as u64).as_slice(), data)
}

fn push_elem(out: &mut Vec<u8>, id: u32, data: &[u8])
    ensures
        final(out)@ == old(out)@ + elem(id as nat, data@),
{
    push_all(out, build_elem(id, data).as_slice());
}

fn push_uint_elem(out: &mut Vec<u8>, id: u32, v: u64)
    ensures
        final(out)@ == old(out)@ + elem(id as nat, uint(v as nat)),
{
    push_elem(out, id, u64_to_bytes(v).as_slice());
}

fn push_text_elem(out: &mut Vec<u8>, id: u32, s: &str)
    ensures
        final(out)@ == old(out)@ + elem(id as nat, text(s@)),
{
    push_elem(out, id, s.as_bytes());
}

// ---------------------------------------------------------------- tracks

/// The track entry of the video.
#[verifier::opaque]
pub open spec fn video_entry(v: EncodedVideoView) -> Seq<u8> {
    elem(
        0xAE,
        elem(0xD7, uint(1)) + elem(0x73C5, uint(1)) + elem(0x83, uint(1)) + elem(0x9C, uint(0))
            + elem(
            0x86,
            if v.is_av1 {
                text("V_AV1"@)
            } else {
                text("V_MPEG4/ISO/AVC"@)
            },
        ) + elem(0x63A2, v.codec_private) + elem(0x536E, text("candy video"@)) + elem(
            0xE0,
            elem(0xB0, uint(v.width as nat)) + elem(0xBA, uint(v.height as nat)),
        ),
    )
}

/// Builds the track entry of the video.
pub fn video_track_entry(v: &EncodedVideo) -> (r: Vec<u8>)
    ensures
        r@ == video_entry(v@),
{
    proof {
        reveal(video_entry);
    }
    let mut e: Vec<u8> = Vec::new();
    push_uint_elem(&mut e, 0xD7, 1);  // TrackNumber
    push_uint_elem(&mut e, 0x73C5, 1);  // TrackUID
    push_uint_elem(&mut e, 0x83, 1);  // TrackType (video)
    push_uint_elem(&mut e, 0x9C, 0);  // FlagLacing
    if v.is_av1 {
        push_text_elem(&mut e, 0x86, "V_AV1");  // CodecID
    } else {
        push_text_elem(&mut e, 0x86, "V_MPEG4/ISO/AVC");
    }
    push_elem(&mut e, 0x63A2, v.codec_private.as_slice());  // CodecPrivate
    push_text_elem(&mut e, 0x536E, "candy video");  // Name
    let mut vid: Vec<u8> = Vec::new();
    push_uint_elem(&mut vid, 0xB0, v.width as u64);  // PixelWidth
    push_uint_elem(&mut vid, 0xBA, v.height as u64);  // PixelHeight
    push_elem(&mut e, 0xE0, vid.as_slice());
    build_elem(0xAE, e.as_slice())
}

/// The track entry of the audio.
#[verifier::opaque]
pub open spec fn audio_entry(a: AudioDataView) -> Seq<u8> {
    elem(
        0xAE,
        elem(0xD7, uint(2)) + elem(0x73C5, uint(2)) + elem(0x83, uint(2)) + elem(0x9C, uint(0))
            + elem(
            0x86,
            if a.codec == AudioCodec::Opus {
                text("A_Opus"@)
            } else {
                text("A_AAC"@)
            },
        ) + elem(0x63A2, a.codec_private) + elem(0x536E, text("candy audio"@)) + elem(
            0xE1,
            elem(0xB5, double_bytes(a.sample_rate as nat)) + elem(0x9F, uint(a.channels as nat)),
        ),
    )
}

/// Builds the track entry of the audio.
pub fn audio_track_entry(a: &AudioData) -> (r: Vec<u8>)
    ensures
        r@ == audio_entry(a@),
{
    proof {
        reveal(audio_entry);
    }
    let mut e: Vec<u8> = Vec::new();
    push_uint_elem(&mut e, 0xD7, 2);  // TrackNumber
    push_uint_elem(&mut e, 0x73C5, 2);  // TrackUID
    push_uint_elem(&mut e, 0x83, 2);  // TrackType (audio)
    push_uint_elem(&mut e, 0x9C, 0);  // FlagLacing
    match a.codec {
        AudioCodec::Opus => push_text_elem(&mut e, 0x86, "A_Opus"),
        AudioCodec::Aac => push_text_elem(&mut e, 0x86, "A_AAC"),
    }
    push_elem(&mut e, 0x63A2, a.codec_private.as_slice());  // CodecPrivate
    push_text_elem(&mut e, 0x536E, "candy audio");  // Name
    let mut aud: Vec<u8> = Vec::new();
    push_elem(&mut aud, 0xB5, f64_to_bytes(a.sample_rate as u64).as_slice());  // SamplingFrequency
    push_uint_elem(&mut aud, 0x9F, a.channels as u64);  // Channels
    push_elem(&mut e, 0xE1, aud.as_slice());
    build_elem(0xAE, e.as_slice())
}

/// The `Tracks` element.
pub open spec fn tracks(v: EncodedVideoView, audio: Option<AudioDataView>) -> Seq<u8> {
    elem(
        0x1654AE6B,
        match audio {
            Some(a) => video_entry(v) + audio_entry(a),
            None => video_entry(v),
        },
    )
}

fn build_tracks(v: &EncodedVideo, audio: Option<&AudioData>) -> (r: Vec<u8>)
    ensures
        r@ == tracks(v@, audio_view(audio)),
{
    let mut entries = video_track_entry(v);
    if let Some(a) = audio {
        push_all(&mut entries, audio_track_entry(a).as_slice());
    }
    build_elem(0x1654AE6B, entries.as_slice())
}

// ---------------------------------------------------------------- info, tags, header

/// The `Info` element: a timecode scale of one millisecond, and the duration.
#[verifier::opaque]
pub open spec fn info(duration_ms: nat) -> Seq<u8> {
    elem(
        0x1549A966,
        elem(0x2AD7B1, uint(1_000_000)) + elem(0x4D80, text("candy"@)) + elem(
            0x5741,
            text("candy"@),
        ) + elem(0x4489, double_bytes(duration_ms)),
    )
}

fn build_info(duration_ms: u64) -> (r: Vec<u8>)
    requires
        duration_ms < 0x20_0000_0000_0000,
    ensures
        r@ == info(duration_ms as nat),
{
    proof {
        reveal(info);
    }
    let mut p: Vec<u8> = Vec::new();
    push_uint_elem(&mut p, 0x2AD7B1, 1_000_000);  // TimecodeScale
    push_text_elem(&mut p, 0x4D80, "candy");  // MuxingApp
    push_text_elem(&mut p, 0x5741, "candy");  // WritingApp
    push_elem(&mut p, 0x4489, f64_to_bytes(duration_ms).as_slice());  // Duration
    build_elem(0x1549A966, p.as_slice())
}

/// The `Tags` element: one simple tag `candy-meta` with `json` as its text.
#[verifier::opaque]
pub open spec fn tags(json: Seq<u8>) -> Seq<u8> {
    elem(
        0x1254C367,
        elem(
            0x7373,
            elem(
                0x67C8,
                elem(0x45A3, text("candy-meta"@)) + elem(0x447A, text("und"@)) + elem(0x4484, json),
            ),
        ),
    )
}

/// Builds a `Tags` element that holds the private metadata as a simple tag.
pub fn build_tags(json: &str) -> (r: Vec<u8>)
    ensures
        r@ == tags(text(json@)),
{
    proof {
        reveal(tags);
    }
    let mut simple: Vec<u8> = Vec::new();
    push_text_elem(&mut simple, 0x45A3, "candy-meta");  // TagName
    push_text_elem(&mut simple, 0x447A, "und");  // TagLanguage
    push_text_elem(&mut simple, 0x4484, json);  // TagString
    let simple_el = build_elem(0x67C8, simple.as_slice());
    let tag_el = build_elem(0x7373, simple_el.as_slice());
    build_elem(0x1254C367, tag_el.as_slice())
}

/// The EBML header with the document type.
#[verifier::opaque]
pub open spec fn ebml_header(webm: bool) -> Seq<u8> {
    elem(
        0x1A45DFA3,
        elem(0x4286, uint(1)) + elem(0x42F7, uint(1)) + elem(0x42F2, uint(4)) + elem(
            0x42F3,
            uint(8),
        ) + elem(
            0x4282,
            if webm {
                text("webm"@)
            } else {
                text("matroska"@)
            },
        ) + elem(0x4287, uint(2)) + elem(0x4285, uint(2)),
    )
}

fn build_ebml_header(webm: bool) -> (r: Vec<u8>)
    ensures
        r@ == ebml_header(webm),
{
    proof {
        reveal(ebml_header);
    }
    let mut p: Vec<u8> = Vec::new();
    push_uint_elem(&mut p, 0x4286, 1);  // EBMLVersion
    push_uint_elem(&mut p, 0x42F7, 1);  // EBMLReadVersion
    push_uint_elem(&mut p, 0x42F2, 4);  // EBMLMaxIDLength
    push_uint_elem(&mut p, 0x42F3, 8);  // EBMLMaxSizeLength
    if webm {
        push_text_elem(&mut p, 0x4282, "webm");  // DocType
    } else {
        push_text_elem(&mut p, 0x4282, "matroska");
    }
    push_uint_elem(&mut p, 0x4287, 2);  // DocTypeVersion
    push_uint_elem(&mut p, 0x4285, 2);  // DocTypeReadVersion
    build_elem(0x1A45DFA3, p.as_slice())
}

// ---------------------------------------------------------------- clusters

/// When frame `i` is shown, in milliseconds.
pub open spec fn frame_ms(i: int, fps: u32) -> int {
    (i * 1000) / (fps as int)
}

/// The frames from `first` up to, but not with, `end`.
pub struct Cluster {
    pub first: usize,
    pub end: usize,
}

/// How `n` frames are split into clusters: a new one starts where more than 30 seconds have
/// passed since the first frame of the last one.
pub open spec fn cluster_plan(n: nat, fps: u32) -> Seq<(int, int)>
    decreases n,
{
    if n == 0 {
        Seq::empty()
    } else {
        let plan = cluster_plan((n - 1) as nat, fps);
        let i = n - 1;
        if plan.len() == 0 || frame_ms(i, fps) - frame_ms(plan.last().0, fps) > 30_000 {
            plan.push((i, n as int))
        } else {
            plan.drop_last().push((plan.last().0, n as int))
        }
    }
}

/// The clusters as pairs of frame numbers.
pub open spec fn cluster_pairs(c: Seq<Cluster>) -> Seq<(int, int)> {
    c.map_values(|x: Cluster| (x.first as int, x.end as int))
}

fn frame_time(i: usize, fps: u32) -> (r: u64)
    requires
        fps > 0,
        i <= u32::MAX,
    ensures
        r as int == frame_ms(i as int, fps),
        r <= 0xFFFF_FFFF * 1000,
{
    proof {
        let x = (i * 1000) as int;
        vstd::arithmetic::div_mod::lemma_div_is_ordered_by_denominator(x, 1, fps as int);
        vstd::arithmetic::div_mod::lemma_div_pos_is_pos(x, fps as int);
    }
    (i as u64) * 1000 / (fps as u64)
}

proof fn lemma_frame_ms_monotone(i: int, j: int, fps: u32)
    requires
        fps > 0,
        0 <= i <= j,
    ensures
        0 <= frame_ms(i, fps) <= frame_ms(j, fps),
{
    vstd::arithmetic::div_mod::lemma_div_is_ordered(i * 1000, j * 1000, fps as int);
    vstd::arithmetic::div_mod::lemma_div_pos_is_pos(i * 1000, fps as int);
}

/// Splits `n` frames into clusters so that the time of each block within its cluster fits
/// the 15 bits that it has.
pub fn plan_clusters(n: u32, fps: u32) -> (r: Vec<Cluster>)
    requires
        n > 0 ==> fps > 0,
    ensures
        cluster_pairs(r@) == cluster_plan(n as nat, fps),
{
    let mut r: Vec<Cluster> = Vec::new();
    let mut i: u32 = 0;
    assert(cluster_pairs(r@) =~= cluster_plan(0, fps));
    while i < n
        invariant
            i <= n,
            n > 0 ==> fps > 0,
            cluster_pairs(r@) == cluster_plan(i as nat, fps),
            forall|k: int| 0 <= k < r@.len() ==> (#[trigger] r@[k]).first < i,
        decreases n - i,
    {
        let here: usize = i as usize;
        let last = r.pop();
        let ghost before = cluster_plan(i as nat, fps);
        match last {
            None => {
                r.push(Cluster { first: here, end: here + 1 });
            },
            Some(c) => {
                proof {
                    assert(before.last() == (c.first as int, c.end as int));
                    lemma_frame_ms_monotone(c.first as int, i as int, fps);
                }
                if frame_time(here, fps) - frame_time(c.first, fps) > 30_000 {
                    r.push(c);
                    r.push(Cluster { first: here, end: here + 1 });
                } else {
                    r.push(Cluster { first: c.first, end: here + 1 });
                }
            },
        }
        assert(cluster_pairs(r@) =~= cluster_plan((i + 1) as nat, fps));
        i += 1;
    }
    r
}

/// A simple block: `[track][relative time:2][flags:1][data]`.
pub open spec fn block(track: nat, rel: int, keyframe: bool, data: Seq<u8>) -> Seq<u8> {
    vint(track) + be16(rel) + seq![
        if keyframe {
            0x80u8
        } else {
            0u8
        },
    ] + data
}

/// Builds a Matroska simple block. Only real keyframes are marked as such: players trust the
/// flag when they seek.
pub fn simple_block(track: u64, rel_timecode: u16, keyframe: bool, data: &[u8]) -> (r: Vec<u8>)
    ensures
        r@ == block(track as nat, rel_timecode as int, keyframe, data@),
{
    let mut out = ebml_vint(track);
    push_u16(&mut out, rel_timecode);
    let flags: u8 = if keyframe {
        0x80
    } else {
        0
    };
    out.push(flags);
    proof {
        assert(out@ =~= vint(track as nat) + be16(rel_timecode as int) + seq![flags]);
    }
    push_all(&mut out, data);
    out
}

/// The blocks of the video frames from `first` to `end`, in a cluster that starts at `start_ms`.
pub open spec fn video_blocks(v: EncodedVideoView, start_ms: int, first: int, end: int) -> Seq<u8>
    decreases end - first,
{
    if end <= first {
        Seq::empty()
    } else {
        video_blocks(v, start_ms, first, end - 1) + elem(
            0xA3,
            block(
                1,
                frame_ms(end - 1, v.fps) - start_ms,
                v.keyframes[end - 1],
                v.frames[end - 1],
            ),
        )
    }
}

/// Whether the audio packet at `ms` goes into the cluster of frames `first` to `end`.
pub open spec fn in_cluster(ms: int, first: int, end: int, n: int, fps: u32) -> bool {
    &&& frame_ms(first, fps) <= ms <= frame_ms(n - 1, fps)
    &&& (end >= n || ms < frame_ms(end, fps))
}

/// The blocks of those audio packets that go into a cluster, in order.
pub open spec fn audio_blocks(
    frames: Seq<AudioFrameView>,
    first: int,
    end: int,
    n: int,
    fps: u32,
) -> Seq<u8>
    decreases frames.len(),
{
    if frames.len() == 0 {
        Seq::empty()
    } else {
        let f = frames.last();
        let rest = audio_blocks(frames.drop_last(), first, end, n, fps);
        if in_cluster(f.timestamp_ms as int, first, end, n, fps) {
            rest + elem(
                0xA3,
                block(2, f.timestamp_ms as int - frame_ms(first, fps), false, f.data),
            )
        } else {
            rest
        }
    }
}

/// What a cluster holds: its start time, its video frames, its audio packets.
pub open spec fn cluster_content(
    v: EncodedVideoView,
    audio: Option<AudioDataView>,
    first: int,
    end: int,
    n: int,
) -> Seq<u8> {
    let sound = match audio {
        Some(a) => audio_blocks(a.frames, first, end, n, v.fps),
        None => Seq::empty(),
    };
    elem(0xE7, uint(frame_ms(first, v.fps) as nat)) + video_blocks(
        v,
        frame_ms(first, v.fps),
        first,
        end,
    ) + sound
}

/// A cluster.
pub open spec fn cluster(
    v: EncodedVideoView,
    audio: Option<AudioDataView>,
    first: int,
    end: int,
    n: int,
) -> Seq<u8> {
    elem(0x1F43B675, cluster_content(v, audio, first, end, n))
}

fn is_in_cluster(ms: u64, first: usize, end: usize, n: u32, fps: u32) -> (r: bool)
    requires
        fps > 0,
        first < n,
        end <= n,
    ensures
        r == in_cluster(ms as int, first as int, end as int, n as int, fps),
{
    let last_ms: u64 = frame_time((n - 1) as usize, fps);
    ms >= frame_time(first, fps) && ms <= last_ms && (end >= n as usize || ms < frame_time(
        end,
        fps,
    ))
}

/// The 16 low-order bits of how much `ms` is behind `start`.
fn behind(ms: u64, start: u64) -> (r: u16)
    requires
        start <= ms,
    ensures
        r as int == (ms - start) % 0x1_0000,
{
    ((ms - start) % 0x1_0000) as u16
}

fn push_audio_blocks(
    out: &mut Vec<u8>,
    audio: Option<&AudioData>,
    first: usize,
    end: usize,
    n: u32,
    fps: u32,
)
    requires
        fps > 0,
        first < n,
        end <= n,
    ensures
        final(out)@ == old(out)@ + (match audio {
            Some(a) => audio_blocks(a@.frames, first as int, end as int, n as int, fps),
            None => Seq::empty(),
        }),
{
    match audio {
        None => {
            assert(out@ =~= old(out)@ + Seq::<u8>::empty());
        },
        Some(a) => {
            let start: u64 = frame_time(first, fps);
            let mut i: usize = 0;
            assert(a@.frames.take(0) =~= Seq::<AudioFrameView>::empty());
            assert(out@ =~= old(out)@ + audio_blocks(
                a@.frames.take(0),
                first as int,
                end as int,
                n as int,
                fps,
            ));
            while i < a.frames.len()
                invariant
                    i <= a.frames.len(),
                    fps > 0,
                    first < n,
                    end <= n,
                    start as int == frame_ms(first as int, fps),
                    out@ == old(out)@ + audio_blocks(
                        a@.frames.take(i as int),
                        first as int,
                        end as int,
                        n as int,
                        fps,
                    ),
                decreases a.frames.len() - i,
            {
                let ghost next = a@.frames.take(i + 1);
                assert(next.drop_last() =~= a@.frames.take(i as int));
                assert(next.last() == a.frames@[i as int]@);
                let ms: u64 = a.frames[i].timestamp_ms;
                if is_in_cluster(ms, first, end, n, fps) {
                    let rel: u16 = behind(ms, start);
                    let blk = simple_block(2, rel, false, a.frames[i].data.as_slice());
                    assert(be16(rel as int) == be16(ms - start));
                    push_elem(out, 0xA3, blk.as_slice());
                }
                assert(out@ =~= old(out)@ + audio_blocks(
                    next,
                    first as int,
                    end as int,
                    n as int,
                    fps,
                ));
                i += 1;
            }
            assert(a@.frames.take(a.frames@.len() as int) =~= a@.frames);
        },
    }
}

fn push_video_block(
    out: &mut Vec<u8>,
    frame: usize,
    start: u64,
    fps: u32,
    keyframe: bool,
    data: &[u8],
)
    requires
        fps > 0,
        frame < u32::MAX,
        start <= frame_ms(frame as int, fps),
    ensures
        final(out)@ == old(out)@ + elem(
            0xA3,
            block(1, frame_ms(frame as int, fps) - start, keyframe, data@),
        ),
{
    let ms: u64 = frame_time(frame, fps);
    let rel: u16 = behind(ms, start);
    let blk = simple_block(1, rel, keyframe, data);
    assert(be16(rel as int) == be16(ms - start));
    push_elem(out, 0xA3, blk.as_slice());
}

/// Samples whose first one is frame number `base`.
pub open spec fn placed(base: nat, samples: Seq<Seq<u8>>) -> Seq<Seq<u8>> {
    Seq::new(base, |i: int| Seq::empty()) + samples
}

fn build_cluster(
    v: &EncodedVideo,
    base: usize,
    samples: &Vec<Vec<u8>>,
    audio: Option<&AudioData>,
    c: &Cluster,
    n: u32,
) -> (r: Vec<u8>)
    requires
        v.fps > 0,
        base <= c.first < c.end <= n,
        c.end <= base + samples@.len(),
        c.end <= v.keyframes@.len(),
    ensures
        r@ == cluster(
            (EncodedVideoView { frames: placed(base as nat, views(samples@)), ..v@ }),
            audio_view(audio),
            c.first as int,
            c.end as int,
            n as int,
        ),
{
    let ghost w = EncodedVideoView { frames: placed(base as nat, views(samples@)), ..v@ };
    let first: usize = c.first;
    let end: usize = c.end;
    let start: u64 = frame_time(first, v.fps);
    let mut out: Vec<u8> = Vec::new();
    push_uint_elem(&mut out, 0xE7, start);  // Timecode
    let ghost head = out@;
    let mut f: usize = first;
    assert(out@ =~= head + video_blocks(w, start as int, first as int, first as int));
    while f < end
        invariant
            v.fps > 0,
            base <= first <= f <= end <= n,
            end <= base + samples@.len(),
            end <= v.keyframes@.len(),
            w == (EncodedVideoView { frames: placed(base as nat, views(samples@)), ..v@ }),
            start as int == frame_ms(first as int, v.fps),
            out@ == head + video_blocks(w, start as int, first as int, f as int),
        decreases end - f,
    {
        proof {
            lemma_frame_ms_monotone(first as int, f as int, v.fps);
        }
        push_video_block(
            &mut out,
            f,
            start,
            v.fps,
            v.keyframes[f],
            samples[f - base].as_slice(),
        );
        assert(out@ =~= head + video_blocks(w, start as int, first as int, f + 1));
        f += 1;
    }
    push_audio_blocks(&mut out, audio, first, end, n, v.fps);
    build_elem(0x1F43B675, out.as_slice())
}

/// The clusters of a plan, one after the other.
pub open spec fn clusters(
    v: EncodedVideoView,
    audio: Option<AudioDataView>,
    plan: Seq<(int, int)>,
    n: int,
) -> Seq<u8>
    decreases plan.len(),
{
    if plan.len() == 0 {
        Seq::empty()
    } else {
        clusters(v, audio, plan.drop_last(), n) + cluster(
            v,
            audio,
            plan.last().0,
            plan.last().1,
            n,
        )
    }
}

/// The clusters cover all frames in order: the first starts at frame 0, each starts where the
/// one before it ends, and the last ends behind the last frame. None is empty, and in none is
/// a frame more than 30 seconds behind the first, so its time fits 15 bits.
pub proof fn law_cluster_plan(n: nat, fps: u32)
    requires
        fps > 0,
    ensures
        ({
            let plan = cluster_plan(n, fps);
            &&& n == 0 <==> plan.len() == 0
            &&& n > 0 ==> plan[0].0 == 0 && plan.last().1 == n
            &&& forall|k: int|
                0 <= k < plan.len() ==> 0 <= (#[trigger] plan[k]).0 < plan[k].1 <= n
            &&& forall|k: int, m: int|
                0 <= k && m == k + 1 && m < plan.len() ==> (#[trigger] plan[k]).1 == (
                #[trigger] plan[m]).0
            &&& forall|k: int, f: int|
                #![trigger plan[k], frame_ms(f, fps)]
                0 <= k < plan.len() && plan[k].0 <= f < plan[k].1 ==> 0 <= frame_ms(f, fps)
                    - frame_ms(plan[k].0, fps) <= 30_000
        }),
    decreases n,
{
    if n > 0 {
        law_cluster_plan((n - 1) as nat, fps);
        let old_plan = cluster_plan((n - 1) as nat, fps);
        let plan = cluster_plan(n, fps);
        let i = n - 1;
        assert forall|k: int| 0 <= k < plan.len() implies 0 <= (#[trigger] plan[k]).0 < plan[k].1
            <= n by {
            if k < old_plan.len() {
                assert(old_plan[k].0 < old_plan[k].1);
            }
        }
        assert forall|k: int, m: int|
            0 <= k && m == k + 1 && m < plan.len() implies (#[trigger] plan[k]).1 == (
        #[trigger] plan[m]).0 by {
            if m < old_plan.len() {
                assert(old_plan[k].1 == old_plan[m].0);
            }
        }
        assert forall|k: int, f: int|
            #![trigger plan[k], frame_ms(f, fps)]
            0 <= k < plan.len() && plan[k].0 <= f < plan[k].1 implies 0 <= frame_ms(f, fps)
            - frame_ms(plan[k].0, fps) <= 30_000 by {
            lemma_frame_ms_monotone(plan[k].0, f, fps);
            if k < old_plan.len() && f < old_plan[k].1 {
                assert(frame_ms(f, fps) - frame_ms(old_plan[k].0, fps) <= 30_000);
            }
        }
    }
}

/// The time of the last of `n` frames.
pub open spec fn last_ms(n: int, fps: u32) -> nat {
    frame_ms(n - 1, fps) as nat
}

/// What the `Segment` holds.
pub open spec fn segment(
    v: EncodedVideoView,
    audio: Option<AudioDataView>,
    n: int,
    json: Seq<u8>,
) -> Seq<u8> {
    info(last_ms(n, v.fps)) + tracks(v, audio) + tags(json) + clusters(
        v,
        audio,
        cluster_plan(n as nat, v.fps),
        n,
    )
}

/// A whole Matroska file.
pub open spec fn matroska(
    v: EncodedVideoView,
    audio: Option<AudioDataView>,
    webm: bool,
    n: int,
    json: Seq<u8>,
) -> Seq<u8> {
    ebml_header(webm) + elem(0x18538067, segment(v, audio, n, json))
}

/// What the writer asks of a video that has something to mux: a frame rate, and a keyframe
/// flag for each frame.
pub open spec fn matroska_ready(count: nat, fps: u32, keyframes: nat) -> bool {
    wrap32(count as int) == 0 || (fps > 0 && keyframes >= wrap32(count as int))
}

fn build_clusters(v: &EncodedVideo, audio: Option<&AudioData>, n: u32) -> (r: Vec<u8>)
    requires
        v.fps > 0,
        n > 0,
        n <= v.frames@.len(),
        n <= v.keyframes@.len(),
    ensures
        r@ == clusters(v@, audio_view(audio), cluster_plan(n as nat, v.fps), n as int),
{
    let plan = plan_clusters(n, v.fps);
    let ghost pairs = cluster_pairs(plan@);
    proof {
        law_cluster_plan(n as nat, v.fps);
        assert(placed(0, v@.frames) =~= v@.frames);
        assert(v@ == (EncodedVideoView { frames: placed(0, views(v.frames@)), ..v@ }));
    }
    let mut out: Vec<u8> = Vec::new();
    let mut i: usize = 0;
    assert(pairs.take(0) =~= Seq::<(int, int)>::empty());
    while i < plan.len()
        invariant
            i <= plan.len(),
            v.fps > 0,
            n <= v.frames@.len(),
            n <= v.keyframes@.len(),
            pairs == cluster_pairs(plan@),
            forall|k: int| 0 <= k < pairs.len() ==> 0 <= (#[trigger] pairs[k]).0 < pairs[k].1 <= n,
            v@ == (EncodedVideoView { frames: placed(0, views(v.frames@)), ..v@ }),
            out@ == clusters(v@, audio_view(audio), pairs.take(i as int), n as int),
        decreases plan.len() - i,
    {
        assert(pairs[i as int] == (plan@[i as int].first as int, plan@[i as int].end as int));
        let c = build_cluster(v, 0, &v.frames, audio, &plan[i], n);
        push_all(&mut out, c.as_slice());
        assert(pairs.take(i + 1).drop_last() =~= pairs.take(i as int));
        i += 1;
    }
    assert(pairs.take(pairs.len() as int) =~= pairs);
    out
}

/// Muxes into Matroska. `webm` selects the `webm` document type, otherwise `matroska`.
///
/// The private metadata stands in a simple tag named `candy-meta`.
pub fn mux_matroska(
    v: &EncodedVideo,
    audio: Option<&AudioData>,
    webm: bool,
    private_metadata: &PrivateMeta,
) -> (r: Result<Vec<u8>, CandyError>)
    requires
        matroska_ready(v.frames@.len(), v.fps, v.keyframes@.len()),
    ensures
        match r {
            Ok(out) => wrap32(v.frames@.len() as int) != 0 && out@ == matroska(
                v@,
                audio_view(audio),
                webm,
                wrap32(v.frames@.len() as int) as int,
                text(private_metadata@.json()),
            ),
            Err(e) => wrap32(v.frames@.len() as int) == 0 && empty_video_error(e),
        },
{
    let n: u32 = low32(v.frames.len());
    if n == 0 {
        return Err(CandyError::Encode("cannot mux an empty video (E007)".to_owned()));
    }
    let duration: u64 = frame_time((n - 1) as usize, v.fps);
    let mut seg = build_info(duration);
    push_all(&mut seg, build_tracks(v, audio).as_slice());
    let json = private_metadata.to_json();
    push_all(&mut seg, build_tags(json.as_str()).as_slice());
    push_all(&mut seg, build_clusters(v, audio, n).as_slice());
    let mut out = build_ebml_header(webm);
    push_elem(&mut out, 0x18538067, seg.as_slice());
    Ok(out)
}

// ---------------------------------------------------------------- file-backed video

/// Size of the element of a simple block that carries `data_len` bytes.
pub open spec fn block_size(track: nat, data_len: nat) -> nat {
    element_size(1, vint_len(track) + 3 + data_len)
}

/// Size of the blocks of the video frames from `first` to `end`.
pub open spec fn video_size(sizes: Seq<nat>, first: int, end: int) -> nat
    decreases end - first,
{
    if end <= first {
        0
    } else {
        video_size(sizes, first, end - 1) + block_size(1, sizes[end - 1])
    }
}

/// Size of the blocks of those audio packets that go into a cluster.
pub open spec fn audio_size(
    frames: Seq<AudioFrameView>,
    first: int,
    end: int,
    n: int,
    fps: u32,
) -> nat
    decreases frames.len(),
{
    if frames.len() == 0 {
        0
    } else {
        let f = frames.last();
        let rest = audio_size(frames.drop_last(), first, end, n, fps);
        if in_cluster(f.timestamp_ms as int, first, end, n, fps) {
            rest + block_size(2, f.data.len())
        } else {
            rest
        }
    }
}

/// Size of what a cluster holds, from the sizes of the samples alone.
pub open spec fn content_size(
    sizes: Seq<nat>,
    fps: u32,
    audio: Option<AudioDataView>,
    first: int,
    end: int,
    n: int,
) -> nat {
    let sound = match audio {
        Some(a) => audio_size(a.frames, first, end, n, fps),
        None => 0,
    };
    element_size(1, uint_len(frame_ms(first, fps) as nat)) + video_size(sizes, first, end) + sound
}

/// Size of the clusters of a plan.
pub open spec fn clusters_size(
    sizes: Seq<nat>,
    fps: u32,
    audio: Option<AudioDataView>,
    plan: Seq<(int, int)>,
    n: int,
) -> nat
    decreases plan.len(),
{
    if plan.len() == 0 {
        0
    } else {
        clusters_size(sizes, fps, audio, plan.drop_last(), n) + element_size(
            4,
            content_size(sizes, fps, audio, plan.last().0, plan.last().1, n),
        )
    }
}

proof fn lemma_block_len(track: nat, rel: int, keyframe: bool, data: Seq<u8>)
    ensures
        elem(0xA3, block(track, rel, keyframe, data)).len() == block_size(track, data.len()),
{
    broadcast use lemma_be_bytes_len, law_vint_len;

    reveal_with_fuel(uint_len, 2);
}

proof fn lemma_video_size(v: EncodedVideoView, start_ms: int, first: int, end: int)
    requires
        0 <= first,
        end <= v.frames.len(),
    ensures
        video_blocks(v, start_ms, first, end).len() == video_size(lengths(v.frames), first, end),
    decreases end - first,
{
    if end > first {
        lemma_video_size(v, start_ms, first, end - 1);
        lemma_block_len(
            1,
            frame_ms(end - 1, v.fps) - start_ms,
            v.keyframes[end - 1],
            v.frames[end - 1],
        );
    }
}

proof fn lemma_audio_size(frames: Seq<AudioFrameView>, first: int, end: int, n: int, fps: u32)
    ensures
        audio_blocks(frames, first, end, n, fps).len() == audio_size(frames, first, end, n, fps),
    decreases frames.len(),
{
    if frames.len() > 0 {
        let f = frames.last();
        lemma_audio_size(frames.drop_last(), first, end, n, fps);
        lemma_block_len(2, f.timestamp_ms as int - frame_ms(first, fps), false, f.data);
    }
}

/// The length of each byte string.
pub open spec fn lengths(frames: Seq<Seq<u8>>) -> Seq<nat> {
    frames.map_values(|f: Seq<u8>| f.len())
}

/// The clusters take exactly the room that was computed from the sizes of the samples, so the
/// size of the segment can be written before any sample is read.
pub proof fn law_clusters_size(
    v: EncodedVideoView,
    audio: Option<AudioDataView>,
    plan: Seq<(int, int)>,
    n: int,
)
    requires
        forall|k: int|
            0 <= k < plan.len() ==> 0 <= (#[trigger] plan[k]).0 && plan[k].1 <= v.frames.len(),
    ensures
        clusters(v, audio, plan, n).len() == clusters_size(
            lengths(v.frames),
            v.fps,
            audio,
            plan,
            n,
        ),
    decreases plan.len(),
{
    broadcast use lemma_be_bytes_len, law_vint_len;

    if plan.len() > 0 {
        let (first, end) = plan.last();
        assert(plan[plan.len() - 1].1 <= v.frames.len());
        law_clusters_size(v, audio, plan.drop_last(), n);
        lemma_video_size(v, frame_ms(first, v.fps), first, end);
        if let Some(a) = audio {
            lemma_audio_size(a.frames, first, end, n, v.fps);
        }
        let content = cluster_content(v, audio, first, end, n);
        assert(uint(0x1F43B675).len() == 4) by {
            reveal_with_fuel(uint_len, 5);
        }
        assert(uint(0xE7).len() == 1) by {
            reveal_with_fuel(uint_len, 2);
        }
        assert(content.len() == content_size(lengths(v.frames), v.fps, audio, first, end, n));
    }
}

proof fn lemma_video_size_grows(sizes: Seq<nat>, first: int, mid: int, end: int)
    requires
        first <= mid <= end,
    ensures
        video_size(sizes, first, mid) <= video_size(sizes, first, end),
    decreases end - mid,
{
    if mid < end {
        lemma_video_size_grows(sizes, first, mid, end - 1);
    }
}

proof fn lemma_audio_size_grows(
    frames: Seq<AudioFrameView>,
    k: int,
    first: int,
    end: int,
    n: int,
    fps: u32,
)
    requires
        0 <= k <= frames.len(),
    ensures
        audio_size(frames.take(k), first, end, n, fps) <= audio_size(frames, first, end, n, fps),
    decreases frames.len(),
{
    if k < frames.len() {
        lemma_audio_size_grows(frames.drop_last(), k, first, end, n, fps);
        assert(frames.drop_last().take(k) =~= frames.take(k));
    } else {
        assert(frames.take(k) =~= frames);
    }
}

proof fn lemma_clusters_size_grows(
    sizes: Seq<nat>,
    fps: u32,
    audio: Option<AudioDataView>,
    plan: Seq<(int, int)>,
    k: int,
    n: int,
)
    requires
        0 <= k <= plan.len(),
    ensures
        clusters_size(sizes, fps, audio, plan.take(k), n) <= clusters_size(
            sizes,
            fps,
            audio,
            plan,
            n,
        ),
    decreases plan.len(),
{
    if k < plan.len() {
        lemma_clusters_size_grows(sizes, fps, audio, plan.drop_last(), k, n);
        assert(plan.drop_last().take(k) =~= plan.take(k));
    } else {
        assert(plan.take(k) =~= plan);
    }
}

/// Size in bytes of an element with an id of `id_len` bytes and `data_len` bytes of data.
pub fn ebml_elem_size(id_len: u64, data_len: u64) -> (r: u64)
    requires
        element_size(id_len as nat, data_len as nat) <= u64::MAX,
    ensures
        r as nat == element_size(id_len as nat, data_len as nat),
{
    id_len + vint_size(data_len) + data_len
}

/// Size in bytes of a simple block for `track` with `data_len` bytes of data.
pub fn simple_block_size(track: u64, data_len: u64) -> (r: u64)
    requires
        block_size(track as nat, data_len as nat) <= u64::MAX,
    ensures
        r as nat == block_size(track as nat, data_len as nat),
{
    ebml_elem_size(1, vint_size(track) + 3 + data_len)
}

fn audio_blocks_size(audio: Option<&AudioData>, first: usize, end: usize, n: u32, fps: u32) -> (r:
    u64)
    requires
        fps > 0,
        first < end <= n,
        audio matches Some(a) ==> audio_size(a@.frames, first as int, end as int, n as int, fps)
            <= u64::MAX,
    ensures
        r as nat == (match audio {
            Some(a) => audio_size(a@.frames, first as int, end as int, n as int, fps),
            None => 0,
        }),
{
    let mut size: u64 = 0;
    if let Some(a) = audio {
        let mut i: usize = 0;
        assert(a@.frames.take(0) =~= Seq::<AudioFrameView>::empty());
        while i < a.frames.len()
            invariant
                i <= a.frames.len(),
                fps > 0,
                first < end <= n,
                audio_size(a@.frames, first as int, end as int, n as int, fps) <= u64::MAX,
                size as nat == audio_size(
                    a@.frames.take(i as int),
                    first as int,
                    end as int,
                    n as int,
                    fps,
                ),
            decreases a.frames.len() - i,
        {
            proof {
                let next = a@.frames.take(i + 1);
                assert(next.drop_last() =~= a@.frames.take(i as int));
                assert(next.last() == a.frames@[i as int]@);
                lemma_audio_size_grows(
                    a@.frames,
                    i + 1,
                    first as int,
                    end as int,
                    n as int,
                    fps,
                );
            }
            if is_in_cluster(a.frames[i].timestamp_ms, first, end, n, fps) {
                size = size + simple_block_size(2, a.frames[i].data.len() as u64);
            }
            i += 1;
        }
        assert(a@.frames.take(a.frames@.len() as int) =~= a@.frames);
    }
    size
}

/// Total byte size of one cluster, computed from the sample sizes and the audio packets that
/// fall into it.
pub fn cluster_size(
    c: &Cluster,
    v_sizes: &[u32],
    audio: Option<&AudioData>,
    n: u32,
    fps: u32,
) -> (r: u64)
    requires
        fps > 0,
        c.first < c.end <= n,
        n <= v_sizes@.len(),
        element_size(
            4,
            content_size(
                nats(v_sizes@),
                fps,
                audio_view(audio),
                c.first as int,
                c.end as int,
                n as int,
            ),
        ) <= u64::MAX,
    ensures
        r as nat == element_size(
            4,
            content_size(
                nats(v_sizes@),
                fps,
                audio_view(audio),
                c.first as int,
                c.end as int,
                n as int,
            ),
        ),
{
    let first: usize = c.first;
    let end: usize = c.end;
    let start: u64 = frame_time(first, fps);
    let start_bytes = u64_to_bytes(start);
    proof {
        lemma_be_bytes_len(start as nat, uint_len(start as nat));
    }
    let time_size: u64 = ebml_elem_size(1, start_bytes.len() as u64);
    let mut size: u64 = 0;
    let mut f: usize = first;
    while f < end
        invariant
            first <= f <= end <= n,
            n <= v_sizes@.len(),
            video_size(nats(v_sizes@), first as int, end as int) <= u64::MAX,
            size as nat == video_size(nats(v_sizes@), first as int, f as int),
        decreases end - f,
    {
        proof {
            lemma_video_size_grows(nats(v_sizes@), first as int, f + 1, end as int);
        }
        size = size + simple_block_size(1, v_sizes[f] as u64);
        f += 1;
    }
    let sound: u64 = audio_blocks_size(audio, first, end, n, fps);
    ebml_elem_size(4, time_size + size + sound)
}

/// The head of a Matroska file up to its first cluster, for a segment that holds
/// `clusters_len` more bytes.
pub open spec fn matroska_header(
    v: EncodedVideoView,
    audio: Option<AudioDataView>,
    webm: bool,
    n: int,
    json: Seq<u8>,
    clusters_len: nat,
) -> Seq<u8> {
    let head = info(last_ms(n, v.fps)) + tracks(v, audio) + tags(json);
    ebml_header(webm) + uint(0x18538067) + vint(head.len() + clusters_len) + head
}

/// The size of the segment of a file-backed video.
pub open spec fn file_segment_size(
    v: EncodedVideoFile,
    audio: Option<AudioDataView>,
    json: Seq<u8>,
) -> nat {
    let n = wrap32(v.sample_sizes@.len() as int);
    info(last_ms(n as int, v.fps)).len() + tracks(shim(v), audio).len() + tags(json).len()
        + clusters_size(nats(v.sample_sizes@), v.fps, audio, cluster_plan(n, v.fps), n as int)
}

fn total_cluster_size(
    v: &EncodedVideoFile,
    audio: Option<&AudioData>,
    plan: &Vec<Cluster>,
    n: u32,
) -> (r: u64)
    requires
        v.fps > 0,
        n <= v.sample_sizes@.len(),
        cluster_pairs(plan@) == cluster_plan(n as nat, v.fps),
        clusters_size(
            nats(v.sample_sizes@),
            v.fps,
            audio_view(audio),
            cluster_plan(n as nat, v.fps),
            n as int,
        ) <= u64::MAX,
    ensures
        r as nat == clusters_size(
            nats(v.sample_sizes@),
            v.fps,
            audio_view(audio),
            cluster_plan(n as nat, v.fps),
            n as int,
        ),
{
    let ghost pairs = cluster_pairs(plan@);
    let ghost sizes = nats(v.sample_sizes@);
    let ghost sound = audio_view(audio);
    proof {
        law_cluster_plan(n as nat, v.fps);
        assert(pairs.take(0) =~= Seq::<(int, int)>::empty());
    }
    let mut total: u64 = 0;
    let mut i: usize = 0;
    while i < plan.len()
        invariant
            i <= plan.len(),
            v.fps > 0,
            n <= v.sample_sizes@.len(),
            pairs == cluster_pairs(plan@),
            sizes == nats(v.sample_sizes@),
            sound == audio_view(audio),
            forall|k: int| 0 <= k < pairs.len() ==> 0 <= (#[trigger] pairs[k]).0 < pairs[k].1 <= n,
            clusters_size(sizes, v.fps, sound, pairs, n as int) <= u64::MAX,
            total as nat == clusters_size(sizes, v.fps, sound, pairs.take(i as int), n as int),
        decreases plan.len() - i,
    {
        proof {
            assert(pairs[i as int] == (plan@[i as int].first as int, plan@[i as int].end as int));
            assert(pairs.take(i + 1).drop_last() =~= pairs.take(i as int));
            lemma_clusters_size_grows(sizes, v.fps, sound, pairs, i + 1, n as int);
        }
        total = total + cluster_size(&plan[i], v.sample_sizes.as_slice(), audio, n, v.fps);
        i += 1;
    }
    assert(pairs.take(pairs.len() as int) =~= pairs);
    total
}

/// Everything in front of the clusters in the Matroska file of a file-backed video. The size
/// of the segment is computed from the sizes of the samples; no sample is read.
pub fn matroska_file_header(
    v: &EncodedVideoFile,
    audio: Option<&AudioData>,
    webm: bool,
    private_metadata: &PrivateMeta,
) -> (r: Result<Vec<u8>, CandyError>)
    requires
        wrap32(v.sample_sizes@.len() as int) == 0 || (v.fps > 0 && file_segment_size(
            *v,
            audio_view(audio),
            text(private_metadata@.json()),
        ) <= u64::MAX),
    ensures
        match r {
            Ok(out) => {
                let n = wrap32(v.sample_sizes@.len() as int);
                n != 0 && out@ == matroska_header(
                    shim(*v),
                    audio_view(audio),
                    webm,
                    n as int,
                    text(private_metadata@.json()),
                    clusters_size(
                        nats(v.sample_sizes@),
                        v.fps,
                        audio_view(audio),
                        cluster_plan(n, v.fps),
                        n as int,
                    ),
                )
            },
            Err(e) => wrap32(v.sample_sizes@.len() as int) == 0 && empty_video_error(e),
        },
{
    let n: u32 = low32(v.sample_sizes.len());
    if n == 0 {
        return Err(CandyError::Encode("cannot mux an empty video (E007)".to_owned()));
    }
    let plan = plan_clusters(n, v.fps);
    let shimmed = video_shim(v);
    let duration: u64 = frame_time((n - 1) as usize, v.fps);
    let mut head = build_info(duration);
    push_all(&mut head, build_tracks(&shimmed, audio).as_slice());
    let json = private_metadata.to_json();
    push_all(&mut head, build_tags(json.as_str()).as_slice());
    let total: u64 = total_cluster_size(v, audio, &plan, n);
    let mut out = build_ebml_header(webm);
    push_all(&mut out, u64_to_bytes(0x18538067).as_slice());
    push_all(&mut out, ebml_vint(head.len() as u64 + total).as_slice());
    push_all(&mut out, head.as_slice());
    Ok(out)
}

/// One cluster of a file-backed video, from the samples of its frames.
pub fn file_cluster(
    v: &EncodedVideoFile,
    samples: &Vec<Vec<u8>>,
    audio: Option<&AudioData>,
    c: &Cluster,
    n: u32,
) -> (r: Vec<u8>)
    requires
        v.fps > 0,
        c.first < c.end <= n,
        samples@.len() == c.end - c.first,
        c.end <= v.keyframes@.len(),
    ensures
        r@ == cluster(
            (EncodedVideoView { frames: placed(c.first as nat, views(samples@)), ..shim(*v) }),
            audio_view(audio),
            c.first as int,
            c.end as int,
            n as int,
        ),
{
    let shimmed = video_shim(v);
    build_cluster(&shimmed, c.first, samples, audio, c, n)
}

proof fn lemma_video_blocks_local(
    v: EncodedVideoView,
    w: EncodedVideoView,
    start_ms: int,
    first: int,
    end: int,
)
    requires
        v.fps == w.fps,
        v.keyframes == w.keyframes,
        forall|i: int| first <= i < end ==> #[trigger] v.frames[i] == w.frames[i],
    ensures
        video_blocks(v, start_ms, first, end) == video_blocks(w, start_ms, first, end),
    decreases end - first,
{
    if end > first {
        lemma_video_blocks_local(v, w, start_ms, first, end - 1);
        assert(v.frames[end - 1] == w.frames[end - 1]);
    }
}

/// A cluster that was built from the samples of its own frames is the cluster of the whole
/// video.
pub proof fn law_file_cluster_matches(
    v: EncodedVideoView,
    audio: Option<AudioDataView>,
    first: int,
    end: int,
    n: int,
)
    requires
        0 <= first <= end <= v.frames.len(),
    ensures
        cluster(
            (EncodedVideoView {
                frames: placed(first as nat, v.frames.subrange(first, end)),
                ..v
            }),
            audio,
            first,
            end,
            n,
        ) == cluster(v, audio, first, end, n),
{
    let w = EncodedVideoView { frames: placed(first as nat, v.frames.subrange(first, end)), ..v };
    lemma_video_blocks_local(v, w, frame_ms(first, v.fps), first, end);
}

/// The head of a file-backed video and its clusters make the file of the video in memory.
pub proof fn law_file_matches_memory(
    v: EncodedVideoView,
    audio: Option<AudioDataView>,
    webm: bool,
    json: Seq<u8>,
)
    requires
        v.fps > 0,
        0 < v.frames.len() < 0x1_0000_0000,
    ensures
        ({
            let n = v.frames.len() as int;
            let plan = cluster_plan(n as nat, v.fps);
            matroska_header(
                (EncodedVideoView { frames: Seq::empty(), ..v }),
                audio,
                webm,
                n,
                json,
                clusters_size(lengths(v.frames), v.fps, audio, plan, n),
            ) + clusters(v, audio, plan, n) == matroska(v, audio, webm, n, json)
        }),
{
    let n = v.frames.len() as int;
    let plan = cluster_plan(n as nat, v.fps);
    law_cluster_plan(n as nat, v.fps);
    law_clusters_size(v, audio, plan, n);
    let w = EncodedVideoView { frames: Seq::empty(), ..v };
    assert(tracks(w, audio) == tracks(v, audio)) by {
        reveal(video_entry);
    }
    let head = info(last_ms(n, v.fps)) + tracks(v, audio) + tags(json);
    let body = clusters(v, audio, plan, n);
    assert(segment(v, audio, n, json) == head + body);
    assert((head + body).len() == head.len() + body.len());
    let left = matroska_header(w, audio, webm, n, json, body.len()) + body;
    let right = ebml_header(webm) + (uint(0x18538067) + vint((head + body).len()) + (head + body));
    assert(left =~= right);
}

/// Every Matroska file holds the JSON of its private metadata as one piece.
pub proof fn law_metadata_embedded(
    v: EncodedVideoView,
    audio: Option<AudioDataView>,
    webm: bool,
    n: int,
    json: Seq<u8>,
)
    ensures
        holds_piece(matroska(v, audio, webm, n, json), json),
{
    let none = Seq::<u8>::empty();
    reveal(tags);
    lemma_piece_self(json);
    let t = elem(0x4484, json);
    lemma_piece_in_middle(uint(0x4484) + vint(json.len()), json, none, json);
    let front = elem(0x45A3, text("candy-meta"@)) + elem(0x447A, text("und"@));
    let simple = front + t;
    lemma_piece_in_middle(front, t, none, json);
    lemma_piece_in_middle(uint(0x67C8) + vint(simple.len()), simple, none, json);
    let simple_el = elem(0x67C8, simple);
    lemma_piece_in_middle(uint(0x7373) + vint(simple_el.len()), simple_el, none, json);
    let tag = elem(0x7373, simple_el);
    lemma_piece_in_middle(uint(0x1254C367) + vint(tag.len()), tag, none, json);
    let all = tags(json);
    let body = clusters(v, audio, cluster_plan(n as nat, v.fps), n);
    lemma_piece_in_middle(info(last_ms(n, v.fps)) + tracks(v, audio), all, body, json);
    let seg = segment(v, audio, n, json);
    lemma_piece_in_middle(uint(0x18538067) + vint(seg.len()), seg, none, json);
    lemma_piece_in_middle(ebml_header(webm), elem(0x18538067, seg), none, json);
}

pub proof fn lemma_cluster_from(n: nat, fps: u32, i: int, from: int) -> (k: int)
    requires
        fps > 0,
        0 <= from < cluster_plan(n, fps).len(),
        cluster_plan(n, fps)[from].0 <= i < n,
    ensures
        from <= k < cluster_plan(n, fps).len(),
        cluster_plan(n, fps)[k].0 <= i < cluster_plan(n, fps)[k].1,
    decreases cluster_plan(n, fps).len() - from,
{
    let plan = cluster_plan(n, fps);
    law_cluster_plan(n, fps);
    if i < plan[from].1 {
        from
    } else {
        assert(plan[from + 1].0 == plan[from].1);
        lemma_cluster_from(n, fps, i, from + 1)
    }
}

proof fn lemma_block_in_blocks(v: EncodedVideoView, start_ms: int, first: int, end: int, i: int)
    requires
        first <= i < end,
    ensures
        holds_piece(
            video_blocks(v, start_ms, first, end),
            elem(0xA3, block(1, frame_ms(i, v.fps) - start_ms, v.keyframes[i], v.frames[i])),
        ),
    decreases end - first,
{
    let e = elem(0xA3, block(1, frame_ms(i, v.fps) - start_ms, v.keyframes[i], v.frames[i]));
    let rest = video_blocks(v, start_ms, first, end - 1);
    if i == end - 1 {
        lemma_piece_self(e);
        lemma_piece_in_middle(rest, e, Seq::empty(), e);
    } else {
        lemma_block_in_blocks(v, start_ms, first, end - 1, i);
        let back = elem(
            0xA3,
            block(1, frame_ms(end - 1, v.fps) - start_ms, v.keyframes[end - 1], v.frames[end - 1]),
        );
        lemma_piece_in_middle(Seq::empty(), rest, back, e);
        assert(Seq::<u8>::empty() + rest + back =~= rest + back);
    }
}

proof fn lemma_cluster_in_clusters(
    v: EncodedVideoView,
    audio: Option<AudioDataView>,
    plan: Seq<(int, int)>,
    n: int,
    k: int,
    part: Seq<u8>,
)
    requires
        0 <= k < plan.len(),
        holds_piece(cluster(v, audio, plan[k].0, plan[k].1, n), part),
    ensures
        holds_piece(clusters(v, audio, plan, n), part),
    decreases plan.len(),
{
    let rest = clusters(v, audio, plan.drop_last(), n);
    let last = cluster(v, audio, plan.last().0, plan.last().1, n);
    if k == plan.len() - 1 {
        lemma_piece_in_middle(rest, last, Seq::empty(), part);
    } else {
        assert(plan.drop_last()[k] == plan[k]);
        lemma_cluster_in_clusters(v, audio, plan.drop_last(), n, k, part);
        lemma_piece_in_middle(Seq::empty(), rest, last, part);
        assert(Seq::<u8>::empty() + rest + last =~= rest + last);
    }
}

/// Every Matroska file holds each of its frames as one block, with its key frame flag and its
/// time in a cluster that the frame belongs to.
pub proof fn law_frame_embedded(
    v: EncodedVideoView,
    audio: Option<AudioDataView>,
    webm: bool,
    n: int,
    json: Seq<u8>,
    i: int,
)
    requires
        v.fps > 0,
        0 <= i < n,
    ensures
        ({
            let plan = cluster_plan(n as nat, v.fps);
            exists|k: int|
                0 <= k < plan.len() && (#[trigger] plan[k]).0 <= i < plan[k].1 && 0 <= frame_ms(
                    i,
                    v.fps,
                ) - frame_ms(plan[k].0, v.fps) <= 30_000 && holds_piece(
                    matroska(v, audio, webm, n, json),
                    elem(
                        0xA3,
                        block(
                            1,
                            frame_ms(i, v.fps) - frame_ms(plan[k].0, v.fps),
                            v.keyframes[i],
                            v.frames[i],
                        ),
                    ),
                )
        }),
{
    let plan = cluster_plan(n as nat, v.fps);
    law_cluster_plan(n as nat, v.fps);
    let k = lemma_cluster_from(n as nat, v.fps, i, 0);
    let (first, end) = plan[k];
    let start = frame_ms(first, v.fps);
    let none = Seq::<u8>::empty();
    let e = elem(0xA3, block(1, frame_ms(i, v.fps) - start, v.keyframes[i], v.frames[i]));
    lemma_block_in_blocks(v, start, first, end, i);
    let sound = match audio {
        Some(a) => audio_blocks(a.frames, first, end, n, v.fps),
        None => Seq::empty(),
    };
    lemma_piece_in_middle(
        elem(0xE7, uint(start as nat)),
        video_blocks(v, start, first, end),
        sound,
        e,
    );
    let content = cluster_content(v, audio, first, end, n);
    lemma_piece_in_middle(uint(0x1F43B675) + vint(content.len()), content, none, e);
    lemma_cluster_in_clusters(v, audio, plan, n, k, e);
    let all = clusters(v, audio, plan, n);
    let seg = segment(v, audio, n, json);
    lemma_piece_in_middle(info(last_ms(n, v.fps)) + tracks(v, audio) + tags(json), all, none, e);
    lemma_piece_in_middle(uint(0x18538067) + vint(seg.len()), seg, none, e);
    lemma_piece_in_middle(ebml_header(webm), elem(0x18538067, seg), none, e);
    assert(plan[k].0 <= i < plan[k].1);
}

pub proof fn lemma_cluster_at(n: nat, fps: u32, ms: int, from: int) -> (k: int)
    requires
        fps > 0,
        n > 0,
        0 <= from < cluster_plan(n, fps).len(),
        frame_ms(cluster_plan(n, fps)[from].0, fps) <= ms <= frame_ms(n - 1, fps),
    ensures
        from <= k < cluster_plan(n, fps).len(),
        in_cluster(ms, cluster_plan(n, fps)[k].0, cluster_plan(n, fps)[k].1, n as int, fps),
    decreases cluster_plan(n, fps).len() - from,
{
    let plan = cluster_plan(n, fps);
    law_cluster_plan(n, fps);
    if from == plan.len() - 1 || ms < frame_ms(plan[from].1, fps) {
        from
    } else {
        assert(plan[from + 1].0 == plan[from].1);
        lemma_cluster_at(n, fps, ms, from + 1)
    }
}

proof fn lemma_starts_ascend(n: nat, fps: u32, j: int, k: int)
    requires
        fps > 0,
        0 <= j < k < cluster_plan(n, fps).len(),
    ensures
        cluster_plan(n, fps)[j].1 <= cluster_plan(n, fps)[k].0,
        cluster_plan(n, fps)[j].1 < n,
    decreases k - j,
{
    let plan = cluster_plan(n, fps);
    law_cluster_plan(n, fps);
    assert(plan[j].1 == plan[j + 1].0);
    assert(plan[j + 1].0 < plan[j + 1].1);
    if j + 1 < k {
        lemma_starts_ascend(n, fps, j + 1, k);
    }
}

/// An audio packet that starts no later than the last frame goes into one cluster, and into no
/// other.
pub proof fn law_packet_in_one_cluster(n: nat, fps: u32, ms: int)
    requires
        fps > 0,
        n > 0,
        0 <= ms <= frame_ms(n - 1, fps),
    ensures
        ({
            let plan = cluster_plan(n, fps);
            exists|k: int|
                0 <= k < plan.len() && in_cluster(
                    ms,
                    (#[trigger] plan[k]).0,
                    plan[k].1,
                    n as int,
                    fps,
                ) && forall|j: int|
                    0 <= j < plan.len() && j != k ==> !in_cluster(
                        ms,
                        (#[trigger] plan[j]).0,
                        plan[j].1,
                        n as int,
                        fps,
                    )
        }),
{
    let plan = cluster_plan(n, fps);
    law_cluster_plan(n, fps);
    assert(frame_ms(0, fps) == 0) by {
        vstd::arithmetic::div_mod::lemma_div_basics(fps as int);
    }
    let k = lemma_cluster_at(n, fps, ms, 0);
    assert forall|j: int| 0 <= j < plan.len() && j != k implies !in_cluster(
        ms,
        (#[trigger] plan[j]).0,
        plan[j].1,
        n as int,
        fps,
    ) by {
        if j < k {
            lemma_starts_ascend(n, fps, j, k);
            lemma_frame_ms_monotone(plan[j].1, plan[k].0, fps);
        } else {
            lemma_starts_ascend(n, fps, k, j);
            lemma_frame_ms_monotone(plan[k].1, plan[j].0, fps);
        }
    }
    assert(in_cluster(ms, plan[k].0, plan[k].1, n as int, fps));
}

} // verus!
