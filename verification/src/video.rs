//! Encoded video and the choice of codec and container.

use vstd::prelude::*;
use vstd::string::*;
use crate::audio::{audio_view, AudioData};
use crate::av1::{assemble, assembled, Packet};
use crate::bytes::{push_all, text, views, wrap32};
use crate::color::{lemma_pixel_inside, lesser};
use crate::diag::{CandyError, CandyWarn, ErrorView, WarnView};
use crate::h264::{codable, encode, finished, opened, refused, run};
use crate::matroska::{matroska, matroska_ready, mux_matroska};
use crate::meta::PrivateMeta;
use crate::mp4::{
    audio_bytes, carried, empty_video_error, mp4_header, mp4_plan, mp4_ready, mux_mp4, sizes_of,
};
use crate::scene::seq_view;

verus! {

/// A finished coded video stream.
#[derive(Debug, Clone)]
pub struct EncodedVideo {
    pub width: u32,
    pub height: u32,
    pub fps: u32,
    /// AV1 if true, H.264 or H.265 otherwise.
    pub is_av1: bool,
    /// H.265 if true, H.264 or AV1 otherwise.
    pub is_hevc: bool,
    /// One coded sample per frame.
    pub frames: Vec<Vec<u8>>,
    /// Decoder configuration (`av1C` / `avcC` / `hvcC` payload).
    pub codec_private: Vec<u8>,
    /// For each frame, whether it can be decoded on its own.
    pub keyframes: Vec<bool>,
}

/// The value of an [`EncodedVideo`].
pub struct EncodedVideoView {
    pub width: u32,
    pub height: u32,
    pub fps: u32,
    pub is_av1: bool,
    pub is_hevc: bool,
    pub frames: Seq<Seq<u8>>,
    pub codec_private: Seq<u8>,
    pub keyframes: Seq<bool>,
}

impl View for EncodedVideo {
    type V = EncodedVideoView;

    open spec fn view(&self) -> EncodedVideoView {
        EncodedVideoView {
            width: self.width,
            height: self.height,
            fps: self.fps,
            is_av1: self.is_av1,
            is_hevc: self.is_hevc,
            frames: views(self.frames@),
            codec_private: self.codec_private@,
            keyframes: self.keyframes@,
        }
    }
}

/// A finished coded video stream whose samples lie one after the other in a file.
#[derive(Debug, Clone)]
pub struct EncodedVideoFile {
    pub width: u32,
    pub height: u32,
    pub fps: u32,
    pub is_av1: bool,
    pub is_hevc: bool,
    /// Where the samples lie.
    pub samples_path: String,
    /// The length of each sample.
    pub sample_sizes: Vec<u32>,
    pub codec_private: Vec<u8>,
    pub keyframes: Vec<bool>,
}

/// A single rasterized frame: RGBA with 8 bits each, row by row.
#[derive(Debug, Clone)]
pub struct RenderedFrame {
    pub width: usize,
    pub height: usize,
    pub rgba: Vec<u8>,
}

/// The value of a [`RenderedFrame`].
pub struct FrameView {
    pub width: usize,
    pub height: usize,
    pub rgba: Seq<u8>,
}

impl View for RenderedFrame {
    type V = FrameView;

    open spec fn view(&self) -> FrameView {
        FrameView { width: self.width, height: self.height, rgba: self.rgba@ }
    }
}

impl FrameView {
    /// Whether there are bytes for every pixel.
    pub open spec fn full(self) -> bool {
        self.width * self.height * 4 <= self.rgba.len()
    }
}

// ---------------------------------------------------------------- codecs and containers

/// Video codec selector.
#[derive(Debug, Clone, Copy, PartialEq, Eq, Structural)]
pub enum Codec {
    /// AV1 via rav1e.
    Av1,
    /// H.264 via OpenH264.
    H264,
    /// H.265/HEVC, via ffmpeg where there is one.
    H265,
    /// H.264 via ffmpeg and libx264.
    X264,
    /// H.265/HEVC via ffmpeg and libx265.
    X265,
    /// H.264 via ffmpeg and VAAPI.
    H264Vaapi,
    /// H.265 via ffmpeg and VAAPI.
    H265Vaapi,
    /// H.264 via ffmpeg and VideoToolbox.
    H264VideoToolbox,
    /// H.265 via ffmpeg and VideoToolbox.
    H265VideoToolbox,
    /// H.264 via ffmpeg and Quick Sync Video.
    H264Qsv,
    /// H.265 via ffmpeg and Quick Sync Video.
    H265Qsv,
    /// AV1 via ffmpeg and VAAPI.
    Av1Vaapi,
    /// VP9 via ffmpeg and libvpx.
    Vp9,
    /// VP8 via ffmpeg and libvpx.
    Vp8,
    /// H.264 via VAAPI alone.
    H264Libva,
    /// H.265 via VAAPI alone.
    H265Libva,
    /// AV1 via VAAPI alone.
    Av1Libva,
}

impl Codec {
    /// Whether the codec always goes through ffmpeg.
    pub open spec fn through_ffmpeg(self) -> bool {
        self == Codec::X264 || self == Codec::X265 || self == Codec::H264Vaapi || self
            == Codec::H265Vaapi || self == Codec::Av1Vaapi || self == Codec::H264VideoToolbox
            || self == Codec::H265VideoToolbox || self == Codec::H264Qsv || self == Codec::H265Qsv
            || self == Codec::Vp9 || self == Codec::Vp8
    }

    /// Whether the codec always goes through ffmpeg.
    pub fn uses_ffmpeg(self) -> (r: bool)
        ensures
            r == self.through_ffmpeg(),
    {
        match self {
            Codec::X264 | Codec::X265 | Codec::Vp9 | Codec::Vp8 => true,
            Codec::H264Vaapi | Codec::H265Vaapi | Codec::Av1Vaapi => true,
            Codec::H264VideoToolbox | Codec::H265VideoToolbox => true,
            Codec::H264Qsv | Codec::H265Qsv => true,
            _ => false,
        }
    }

    /// Whether the codec is there without ffmpeg. For H.265 that means an error.
    pub fn is_self_contained(self) -> (r: bool)
        ensures
            r == (self == Codec::Av1 || self == Codec::H264 || self == Codec::H265),
    {
        match self {
            Codec::Av1 | Codec::H264 | Codec::H265 => true,
            _ => false,
        }
    }
}

/// The name of a codec as it is written in the source.
pub open spec fn codec_name(c: Codec) -> Seq<char> {
    match c {
        Codec::Av1 => "Av1"@,
        Codec::H264 => "H264"@,
        Codec::H265 => "H265"@,
        Codec::X264 => "X264"@,
        Codec::X265 => "X265"@,
        Codec::H264Vaapi => "H264Vaapi"@,
        Codec::H265Vaapi => "H265Vaapi"@,
        Codec::H264VideoToolbox => "H264VideoToolbox"@,
        Codec::H265VideoToolbox => "H265VideoToolbox"@,
        Codec::H264Qsv => "H264Qsv"@,
        Codec::H265Qsv => "H265Qsv"@,
        Codec::Av1Vaapi => "Av1Vaapi"@,
        Codec::Vp9 => "Vp9"@,
        Codec::Vp8 => "Vp8"@,
        Codec::H264Libva => "H264Libva"@,
        Codec::H265Libva => "H265Libva"@,
        Codec::Av1Libva => "Av1Libva"@,
    }
}

/// The name of a codec as it is written in the source.
pub fn name_of(c: Codec) -> (r: &'static str)
    ensures
        r@ == codec_name(c),
{
    match c {
        Codec::Av1 => "Av1",
        Codec::H264 => "H264",
        Codec::H265 => "H265",
        Codec::X264 => "X264",
        Codec::X265 => "X265",
        Codec::H264Vaapi => "H264Vaapi",
        Codec::H265Vaapi => "H265Vaapi",
        Codec::H264VideoToolbox => "H264VideoToolbox",
        Codec::H265VideoToolbox => "H265VideoToolbox",
        Codec::H264Qsv => "H264Qsv",
        Codec::H265Qsv => "H265Qsv",
        Codec::Av1Vaapi => "Av1Vaapi",
        Codec::Vp9 => "Vp9",
        Codec::Vp8 => "Vp8",
        Codec::H264Libva => "H264Libva",
        Codec::H265Libva => "H265Libva",
        Codec::Av1Libva => "Av1Libva",
    }
}

/// Output container.
#[derive(Debug, Clone, Copy, PartialEq, Eq, Structural)]
pub enum Container {
    Mp4,
    Mkv,
    Webm,
}

/// Whether the video and its audio can be put into the container.
pub open spec fn muxable(
    v: &EncodedVideo,
    audio: Option<crate::audio::AudioDataView>,
    container: Container,
) -> bool {
    match container {
        Container::Mp4 => mp4_ready(v.frames@.len(), v.fps, audio),
        _ => matroska_ready(v.frames@.len(), v.fps, v.keyframes@.len()),
    }
}

/// The file that a video and its audio make up.
pub open spec fn muxed(
    v: EncodedVideoView,
    audio: Option<crate::audio::AudioDataView>,
    container: Container,
    json: Seq<char>,
) -> Seq<u8> {
    match container {
        Container::Mp4 => mp4_header(mp4_plan(v, sizes_of(v.frames), carried(audio), json))
            + crate::bytes::concat(v.frames) + audio_bytes(carried(audio)),
        Container::Mkv => matroska(v, audio, false, wrap32(v.frames.len() as int) as int, text(json)),
        Container::Webm => matroska(v, audio, true, wrap32(v.frames.len() as int) as int, text(json)),
    }
}

/// Puts a video and its audio into a container, with the private metadata in it.
pub fn mux(
    video: &EncodedVideo,
    audio: Option<&AudioData>,
    container: Container,
    private_metadata: &PrivateMeta,
) -> (r: Result<Vec<u8>, CandyError>)
    requires
        muxable(video, audio_view(audio), container),
    ensures
        match r {
            Ok(out) => wrap32(video.frames@.len() as int) != 0 && out@ == muxed(
                video@,
                audio_view(audio),
                container,
                private_metadata@.json(),
            ),
            Err(e) => wrap32(video.frames@.len() as int) == 0 && empty_video_error(e),
        },
{
    match container {
        Container::Mp4 => mux_mp4(video, audio, private_metadata),
        Container::Mkv => mux_matroska(video, audio, false, private_metadata),
        Container::Webm => mux_matroska(video, audio, true, private_metadata),
    }
}

// ---------------------------------------------------------------- the canvas

/// A side of the canvas: at least 16 pixels, and an even number of them.
pub open spec fn canvas_side(n: usize) -> int {
    let m = if n < 16 {
        16
    } else {
        n as int
    };
    m + m % 2
}

/// A side of the canvas: at least 16 pixels, and an even number of them.
pub fn pad_side(n: usize) -> (r: usize)
    requires
        n < usize::MAX,
    ensures
        r == canvas_side(n),
        n <= r,
{
    let m: usize = if n < 16 {
        16
    } else {
        n
    };
    m + m % 2
}

/// White pixels.
pub open spec fn white(n: nat) -> Seq<u8> {
    Seq::new(n * 4, |i: int| 255u8)
}

/// A row of the canvas: what the frame has there, and white.
pub open spec fn canvas_row(f: FrameView, tw: usize, y: int) -> Seq<u8> {
    let cw = lesser(f.width, tw);
    if y < f.height {
        f.rgba.subrange(y * f.width * 4, y * f.width * 4 + cw * 4) + white((tw - cw) as nat)
    } else {
        white(tw as nat)
    }
}

/// The first `h` rows of the canvas.
pub open spec fn canvas_rows(f: FrameView, tw: usize, h: nat) -> Seq<u8>
    decreases h,
{
    if h == 0 {
        Seq::empty()
    } else {
        canvas_rows(f, tw, (h - 1) as nat) + canvas_row(f, tw, h - 1)
    }
}

/// A frame in the top left corner of a white canvas; what does not fit is cut off.
pub open spec fn composed(f: FrameView, tw: usize, th: usize) -> FrameView {
    FrameView { width: tw, height: th, rgba: canvas_rows(f, tw, th as nat) }
}

proof fn lemma_row_inside(f: FrameView, y: int)
    requires
        f.full(),
        0 <= y < f.height,
    ensures
        0 <= y * f.width * 4,
        y * f.width * 4 + f.width * 4 <= f.rgba.len(),
{
    assert(0 <= y * f.width && y * f.width + f.width <= f.height * f.width) by (nonlinear_arith)
        requires
            0 <= y < f.height,
            0 <= f.width,
    ;
    assert(f.height * f.width == f.width * f.height) by (nonlinear_arith);
}

/// The canvas has room for each of its pixels.
pub proof fn lemma_canvas_len(f: FrameView, tw: usize, h: nat)
    requires
        f.full(),
    ensures
        canvas_rows(f, tw, h).len() == tw * h * 4,
    decreases h,
{
    if h > 0 {
        lemma_canvas_len(f, tw, (h - 1) as nat);
        if h - 1 < f.height {
            lemma_row_inside(f, h - 1);
        }
        assert(tw * h == tw * (h - 1) + tw) by (nonlinear_arith)
            requires
                h > 0,
        ;
    } else {
        assert(tw * h == 0) by (nonlinear_arith)
            requires
                h == 0,
        ;
    }
}

fn push_white(out: &mut Vec<u8>, n: usize)
    ensures
        final(out)@ == old(out)@ + white(n as nat),
{
    let mut i: usize = 0;
    assert(out@ =~= old(out)@ + white(0));
    while i < n
        invariant
            i <= n,
            out@ == old(out)@ + white(i as nat),
        decreases n - i,
    {
        out.push(255);
        out.push(255);
        out.push(255);
        out.push(255);
        i += 1;
        assert(out@ =~= old(out)@ + white(i as nat));
    }
}

/// Puts a frame in the top left corner of a white canvas; what does not fit is cut off.
pub fn compose(frame: &RenderedFrame, tw: usize, th: usize) -> (r: RenderedFrame)
    requires
        frame@.full(),
    ensures
        r@ == composed(frame@, tw, th),
        r@.full(),
        r@.rgba.len() == tw * th * 4,
{
    let w: usize = frame.width;
    let total: usize = frame.rgba.len();
    let cw: usize = if w < tw {
        w
    } else {
        tw
    };
    let mut rgba: Vec<u8> = Vec::new();
    let mut y: usize = 0;
    while y < th
        invariant
            y <= th,
            w == frame@.width,
            total == frame@.rgba.len(),
            cw == lesser(w, tw),
            frame@.full(),
            rgba@ == canvas_rows(frame@, tw, y as nat),
        decreases th - y,
    {
        let ghost before = rgba@;
        if y < frame.height {
            proof {
                lemma_row_inside(frame@, y as int);
            }
            let at: usize = y * w * 4;
            push_all(
                &mut rgba,
                vstd::slice::slice_subrange(frame.rgba.as_slice(), at, at + cw * 4),
            );
            push_white(&mut rgba, tw - cw);
        } else {
            push_white(&mut rgba, tw);
        }
        assert(rgba@ =~= before + canvas_row(frame@, tw, y as int));
        y += 1;
    }
    proof {
        lemma_canvas_len(frame@, tw, th as nat);
    }
    RenderedFrame { width: tw, height: th, rgba }
}

/// Each byte of the canvas is that of the frame where the frame reaches, and white elsewhere.
pub proof fn law_canvas_shows_frame(f: FrameView, tw: usize, th: usize, x: int, y: int, k: int)
    requires
        f.full(),
        0 <= x < tw,
        0 <= y < th,
        0 <= k < 4,
    ensures
        composed(f, tw, th).rgba[(y * tw + x) * 4 + k] == (if x < f.width && y < f.height {
            f.rgba[(y * f.width + x) * 4 + k]
        } else {
            255
        }),
{
    lemma_canvas_byte(f, tw, th as nat, x, y, k);
}

proof fn lemma_canvas_byte(f: FrameView, tw: usize, h: nat, x: int, y: int, k: int)
    requires
        f.full(),
        0 <= x < tw,
        0 <= y < h,
        0 <= k < 4,
    ensures
        canvas_rows(f, tw, h)[(y * tw + x) * 4 + k] == (if x < f.width && y < f.height {
            f.rgba[(y * f.width + x) * 4 + k]
        } else {
            255
        }),
    decreases h,
{
    let before = canvas_rows(f, tw, (h - 1) as nat);
    let row = canvas_row(f, tw, h - 1);
    lemma_canvas_len(f, tw, (h - 1) as nat);
    lemma_pixel_inside(tw as int, h as int, x, y);
    assert(tw * h == tw * (h - 1) + tw) by (nonlinear_arith)
        requires
            h > 0,
    ;
    let o = (y * tw + x) * 4 + k;
    if y < h - 1 {
        lemma_pixel_inside(tw as int, h - 1, x, y);
        lemma_canvas_byte(f, tw, (h - 1) as nat, x, y, k);
        assert((before + row)[o] == before[o]);
    } else {
        assert(y * tw == tw * (h - 1)) by (nonlinear_arith)
            requires
                y == h - 1,
        ;
        assert(o == before.len() + x * 4 + k);
        if y < f.height {
            lemma_row_inside(f, y);
            let cw = lesser(f.width, tw);
            assert(row.len() == tw * 4);
            assert((before + row)[o] == row[x * 4 + k]);
            if x < f.width {
                assert(x * 4 + k < cw * 4);
                assert(row[x * 4 + k] == f.rgba[y * f.width * 4 + x * 4 + k]);
                assert((y * f.width + x) * 4 == y * f.width * 4 + x * 4);
            }
        } else {
            assert((before + row)[o] == row[x * 4 + k]);
        }
    }
}

// ---------------------------------------------------------------- coding

/// The largest width among the frames.
pub open spec fn widest(s: Seq<FrameView>) -> usize
    decreases s.len(),
{
    if s.len() == 0 {
        0
    } else if s.last().width > widest(s.drop_last()) {
        s.last().width
    } else {
        widest(s.drop_last())
    }
}

/// The largest height among the frames.
pub open spec fn highest(s: Seq<FrameView>) -> usize
    decreases s.len(),
{
    if s.len() == 0 {
        0
    } else if s.last().height > highest(s.drop_last()) {
        s.last().height
    } else {
        highest(s.drop_last())
    }
}

/// The largest width and the largest height among the frames.
pub fn largest(v: &[RenderedFrame]) -> (r: (usize, usize))
    ensures
        r.0 == widest(frame_views(v@)),
        r.1 == highest(frame_views(v@)),
{
    let ghost s = frame_views(v@);
    let mut w: usize = 0;
    let mut h: usize = 0;
    let mut i: usize = 0;
    assert(s.take(0) =~= Seq::<FrameView>::empty());
    while i < v.len()
        invariant
            i <= v@.len(),
            s == frame_views(v@),
            w == widest(s.take(i as int)),
            h == highest(s.take(i as int)),
        decreases v.len() - i,
    {
        assert(s.take(i + 1).drop_last() =~= s.take(i as int));
        assert(s[i as int] == v@[i as int]@);
        if v[i].width > w {
            w = v[i].width;
        }
        if v[i].height > h {
            h = v[i].height;
        }
        i += 1;
    }
    assert(s.take(s.len() as int) =~= s);
    (w, h)
}

/// The values of a list of frames.
pub open spec fn frame_views(v: Seq<RenderedFrame>) -> Seq<FrameView> {
    v.map_values(|f: RenderedFrame| f@)
}

/// What became of coding frames into AV1.
#[derive(Debug)]
pub enum Av1Outcome {
    Packets(Vec<Packet>),
    /// The encoder failed while it was given frames.
    Stopped(String),
    /// The encoder failed when all frames were given.
    Unfinished(String),
}

/// Codes frames into H.264, each of them on a canvas of the given size.
fn encode_composed(frames: &[RenderedFrame], tw: usize, th: usize, fps: u32) -> (r: Result<
    EncodedVideo,
    CandyError,
>)
    requires
        frames@.len() > 0,
        fps >= 1,
        codable(tw, th),
        forall|i: int| 0 <= i < frames@.len() ==> (#[trigger] frames@[i])@.full(),
    ensures
        r matches Err(e) ==> refused(e@),
        r matches Ok(v) ==> h264_video(v@, frames@.len(), tw, th, fps),
{
    let mut canvases: Vec<RenderedFrame> = Vec::new();
    let mut i: usize = 0;
    while i < frames.len()
        invariant
            i <= frames@.len(),
            forall|k: int| 0 <= k < frames@.len() ==> (#[trigger] frames@[k])@.full(),
            canvases@.len() == i,
            forall|k: int|
                0 <= k < i ==> (#[trigger] canvases@[k])@ == composed(frames@[k]@, tw, th)
                    && canvases@[k]@.full(),
        decreases frames.len() - i,
    {
        canvases.push(compose(&frames[i], tw, th));
        i += 1;
    }
    assert(canvases@[0]@ == composed(frames@[0]@, tw, th));
    encode(canvases.as_slice(), fps)
}

/// Whether the video is what an H.264 encoder made of `n` frames of the given size, whatever
/// units it made of each.
pub open spec fn h264_video(v: EncodedVideoView, n: nat, w: usize, h: usize, fps: u32) -> bool {
    exists|all: Seq<Seq<Seq<u8>>>|
        all.len() == n && finished(
            (#[trigger] run(opened(w, h, fps), all)).0,
            run(opened(w, h, fps), all).1,
        ) == Ok::<EncodedVideoView, ErrorView>(v)
}

/// The canvas of a list of frames.
pub open spec fn canvas_of(s: Seq<FrameView>) -> (int, int) {
    (canvas_side(widest(s)), canvas_side(highest(s)))
}

/// Whether the frames can be coded.
pub open spec fn encodable(s: Seq<FrameView>) -> bool {
    let (tw, th) = canvas_of(s);
    &&& tw <= usize::MAX && th <= usize::MAX
    &&& codable(tw as usize, th as usize)
    &&& forall|i: int| 0 <= i < s.len() ==> (#[trigger] s[i]).full()
}

/// The refusal of H.265 without ffmpeg.
pub open spec fn no_hevc() -> ErrorView {
    ErrorView::Encode(
        "HEVC/H.265 encoding is not available: no pure-Rust encoder and no system ffmpeg. Install ffmpeg with x265 support, or use AV1 (default) / H.264."@,
    )
}

fn find_canvas(frames: &[RenderedFrame]) -> (r: (usize, usize))
    requires
        encodable(frame_views(frames@)),
    ensures
        (r.0 as int, r.1 as int) == canvas_of(frame_views(frames@)),
        forall|i: int| 0 <= i < frames@.len() ==> (#[trigger] frames@[i])@.full(),
{
    let (w, h): (usize, usize) = largest(frames);
    proof {
        assert forall|i: int| 0 <= i < frames@.len() implies (#[trigger] frames@[i])@.full() by {
            assert(frame_views(frames@)[i] == frames@[i]@);
        }
    }
    (pad_side(w), pad_side(h))
}

/// Codes frames, all of them on one canvas that has room for the largest. `av1` is what became of
/// coding them into AV1, if that is the codec; where the encoder failed at the very end, the
/// frames are coded into H.264 instead, with a warning.
pub fn encode_frames(
    frames: &[RenderedFrame],
    fps: u32,
    codec: Codec,
    has_ffmpeg: bool,
    av1: Av1Outcome,
) -> (r: Result<(EncodedVideo, Option<CandyWarn>), CandyError>)
    requires
        frames@.len() > 0 && fps >= 1 && (codec == Codec::H264 || codec == Codec::Av1)
            ==> encodable(frame_views(frames@)),
    ensures
        ({
            let s = frame_views(frames@);
            let tw = canvas_of(s).0 as usize;
            let th = canvas_of(s).1 as usize;
            if s.len() == 0 {
                r matches Err(e) && e@ == ErrorView::Encode("cannot encode an empty animation"@)
            } else if fps < 1 {
                r matches Err(e) && e@ == ErrorView::Encode("fps must be >= 1"@)
            } else if codec == Codec::H264 {
                match r {
                    Ok((v, w)) => w is None && h264_video(v@, s.len(), tw, th, fps),
                    Err(e) => refused(e@),
                }
            } else if codec == Codec::Av1 {
                match av1 {
                    Av1Outcome::Packets(p) => r matches Ok((v, w)) && w is None && v@ == assembled(
                        tw,
                        th,
                        fps,
                        seq_view(p@),
                    ),
                    Av1Outcome::Stopped(m) => r matches Err(e) && e@ == ErrorView::Encode(m@),
                    Av1Outcome::Unfinished(m) => match r {
                        Ok((v, w)) => h264_video(v@, s.len(), tw, th, fps) && (w matches Some(w)
                            && w@ == WarnView::CodecFallback("AV1 -> H.264: "@ + m@)),
                        Err(e) => refused(e@),
                    },
                }
            } else if codec == Codec::H265 {
                r matches Err(e) && e@ == if has_ffmpeg {
                    ErrorView::Encode(
                        "H.265 requires the ffmpeg path — use encode_via_ffmpeg (E007 fallback)"@,
                    )
                } else {
                    no_hevc()
                }
            } else {
                r matches Err(e) && e@ == ErrorView::Encode(
                    "codec "@ + codec_name(codec)
                        + " must use the ffmpeg path (encode_via_ffmpeg), not encode_frames"@,
                )
            }
        }),
{
    if frames.len() == 0 {
        return Err(CandyError::Encode("cannot encode an empty animation".to_owned()));
    }
    if fps < 1 {
        return Err(CandyError::Encode("fps must be >= 1".to_owned()));
    }
    match codec {
        Codec::H264 => {
            let (tw, th): (usize, usize) = find_canvas(frames);
            match encode_composed(frames, tw, th, fps) {
                Ok(v) => Ok((v, None)),
                Err(e) => Err(e),
            }
        },
        Codec::Av1 => match av1 {
            Av1Outcome::Packets(p) => {
                let (tw, th): (usize, usize) = find_canvas(frames);
                match assemble(tw, th, fps, p) {
                    Ok(v) => Ok((v, None)),
                    Err(e) => Err(e),
                }
            },
            Av1Outcome::Stopped(m) => Err(CandyError::Encode(m)),
            Av1Outcome::Unfinished(m) => {
                let warn = CandyWarn::CodecFallback(
                    crate::text::join2("AV1 -> H.264: ", m.as_str()),
                );
                let (tw, th): (usize, usize) = find_canvas(frames);
                match encode_composed(frames, tw, th, fps) {
                    Ok(v) => Ok((v, Some(warn))),
                    Err(e) => Err(e),
                }
            },
        },
        Codec::H265 => if has_ffmpeg {
            Err(
                CandyError::Encode(
                    "H.265 requires the ffmpeg path — use encode_via_ffmpeg (E007 fallback)".to_owned(),
                ),
            )
        } else {
            Err(
                CandyError::Encode(
                    "HEVC/H.265 encoding is not available: no pure-Rust encoder and no system ffmpeg. Install ffmpeg with x265 support, or use AV1 (default) / H.264.".to_owned(),
                ),
            )
        },
        _ => {
            let message = crate::text::join3(
                "codec ",
                name_of(codec),
                " must use the ffmpeg path (encode_via_ffmpeg), not encode_frames",
            );
            Err(CandyError::Encode(message))
        },
    }
}

/// The codec that stands in for one that needs ffmpeg where there is none, or the render node of
/// VAAPI where there is none. H.265 is not replaced unless its encoder was chosen by name.
pub open spec fn settled(codec: Codec, has_ffmpeg: bool, has_device: bool) -> Codec {
    match codec {
        Codec::X264 | Codec::H264VideoToolbox | Codec::H264Qsv => if has_ffmpeg {
            codec
        } else {
            Codec::H264
        },
        Codec::X265 | Codec::H265VideoToolbox | Codec::H265Qsv | Codec::Vp9 | Codec::Vp8 => if has_ffmpeg {
            codec
        } else {
            Codec::Av1
        },
        Codec::H264Vaapi => if has_ffmpeg && has_device {
            codec
        } else {
            Codec::H264
        },
        Codec::H265Vaapi => if !has_ffmpeg {
            Codec::Av1
        } else if !has_device {
            Codec::X265
        } else {
            codec
        },
        Codec::Av1Vaapi => if has_ffmpeg && has_device {
            codec
        } else {
            Codec::Av1
        },
        _ => codec,
    }
}

/// Finds the codec that is used where `codec` was asked for.
pub fn settle_codec(codec: Codec, has_ffmpeg: bool, has_device: bool) -> (r: Codec)
    ensures
        r == settled(codec, has_ffmpeg, has_device),
{
    match codec {
        Codec::X264 | Codec::H264VideoToolbox | Codec::H264Qsv => if has_ffmpeg {
            codec
        } else {
            Codec::H264
        },
        Codec::X265 | Codec::H265VideoToolbox | Codec::H265Qsv | Codec::Vp9 | Codec::Vp8 => if has_ffmpeg {
            codec
        } else {
            Codec::Av1
        },
        Codec::H264Vaapi => if has_ffmpeg && has_device {
            codec
        } else {
            Codec::H264
        },
        Codec::H265Vaapi => if !has_ffmpeg {
            Codec::Av1
        } else if !has_device {
            Codec::X265
        } else {
            codec
        },
        Codec::Av1Vaapi => if has_ffmpeg && has_device {
            codec
        } else {
            Codec::Av1
        },
        _ => codec,
    }
}

/// Where ffmpeg is missing no codec that needs it is settled on, and where it is there nothing
/// but a missing device changes the choice; a codec that was settled on stays.
pub proof fn law_settled_codec_is_there(codec: Codec, has_ffmpeg: bool, has_device: bool)
    ensures
        ({
            let c = settled(codec, has_ffmpeg, has_device);
            &&& !has_ffmpeg ==> !c.through_ffmpeg()
            &&& has_ffmpeg && has_device ==> c == codec
            &&& !codec.through_ffmpeg() ==> c == codec
            &&& settled(c, has_ffmpeg, has_device) == c
        }),
{
}

/// The encoder that a stream of frames goes to.
#[derive(Debug, Clone, Copy, PartialEq, Eq, Structural)]
pub enum Route {
    Ffmpeg,
    H264,
    Av1,
}

/// Finds the encoder that a stream of frames goes to.
pub fn route(codec: Codec, fps: u32, has_ffmpeg: bool) -> (r: Result<Route, CandyError>)
    ensures
        if fps < 1 {
            r matches Err(e) && e@ == ErrorView::Encode("fps must be >= 1"@)
        } else if codec.through_ffmpeg() || (codec == Codec::H265 && has_ffmpeg) {
            r == Ok::<Route, CandyError>(Route::Ffmpeg)
        } else if codec == Codec::H264 {
            r == Ok::<Route, CandyError>(Route::H264)
        } else if codec == Codec::Av1 {
            r == Ok::<Route, CandyError>(Route::Av1)
        } else {
            r matches Err(e) && e@ == no_hevc()
        },
{
    if fps < 1 {
        return Err(CandyError::Encode("fps must be >= 1".to_owned()));
    }
    if codec.uses_ffmpeg() || (codec == Codec::H265 && has_ffmpeg) {
        Ok(Route::Ffmpeg)
    } else if codec == Codec::H264 {
        Ok(Route::H264)
    } else if codec == Codec::Av1 {
        Ok(Route::Av1)
    } else {
        Err(
            CandyError::Encode(
                "HEVC/H.265 encoding is not available: no pure-Rust encoder and no system ffmpeg. Install ffmpeg with x265 support, or use AV1 (default) / H.264.".to_owned(),
            ),
        )
    }
}

} // verus!
