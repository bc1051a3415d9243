//! H.264 through OpenH264.

use vstd::prelude::*;
use vstd::string::*;
use crate::bitstream::{
    avc_type, avc_type_of, avcc, build_avcc, copy_of, nal_payload, opt_bytes, packed,
    push_prefixed, unstarted,
};
use crate::bytes::{low32, views, wrap32};
use crate::color::rgba_to_i420_packed;
use crate::diag::{CandyError, ErrorView};
use crate::text::join2;
use crate::video::{EncodedVideo, EncodedVideoFile, EncodedVideoView, RenderedFrame};

verus! {

// ---------------------------------------------------------------- OpenH264

/// An OpenH264 encoder.
#[verifier::external_type_specification]
#[verifier::external_body]
pub struct ExEncoder(openh264::encoder::Encoder);

/// An error of OpenH264.
#[verifier::external_type_specification]
#[verifier::external_body]
pub struct ExEncoderError(openh264::Error);

/// Calls `openh264::encoder::Encoder::with_api_config` with the given frame rate, bit rate and
/// distance between key frames. Nothing is stated of the encoder, and it may refuse.
#[verifier::external_body]
pub(crate) fn new_encoder(fps: u32, bps: u32, gop: u32) -> (r: Result<
    openh264::encoder::Encoder,
    openh264::Error,
>) {
    let config = openh264::encoder::EncoderConfig::new()
        .max_frame_rate(openh264::encoder::FrameRate::from_hz(fps as _))
        .bitrate(openh264::encoder::BitRate::from_bps(bps))
        .intra_frame_period(openh264::encoder::IntraFramePeriod::from_num_frames(gop));
    openh264::encoder::Encoder::with_api_config(openh264::OpenH264API::from_source(), config)
}

/// Calls `openh264::encoder::Encoder::encode` on a picture with halved chroma and hands out the
/// NAL units of what it returns, layer by layer. Nothing is stated of them: they depend on all
/// pictures before, and on the machine. The picture must have the size that
/// `openh264::formats::YUVBuffer::from_vec` asks for.
#[verifier::external_body]
pub(crate) fn encode_picture(
    encoder: &mut openh264::encoder::Encoder,
    yuv: Vec<u8>,
    w: usize,
    h: usize,
) -> (r: Result<Vec<Vec<u8>>, openh264::Error>)
    requires
        w % 2 == 0,
        h % 2 == 0,
        w <= i32::MAX,
        h <= i32::MAX,
        w * h * 3 <= usize::MAX,
        yuv@.len() == w * h * 3 / 2,
{
    let picture = openh264::formats::YUVBuffer::from_vec(yuv, w, h);
    let coded = encoder.encode(&picture)?;
    let mut out = Vec::new();
    for layer in (0..coded.num_layers()).filter_map(|i| coded.layer(i)) {
        for unit in (0..layer.nal_count()).filter_map(|i| layer.nal_unit(i)) {
            out.push(unit.to_vec());
        }
    }
    Ok(out)
}

/// Calls the `Display` of `openh264::Error`. Nothing is stated of the text.
#[verifier::external_body]
pub(crate) fn encoder_error_text(e: &openh264::Error) -> (r: String) {
    e.to_string()
}

// ---------------------------------------------------------------- the stream

/// A stream of coded frames, without the encoder behind it.
#[verifier::ext_equal]
pub struct H264View {
    pub w: usize,
    pub h: usize,
    pub fps: u32,
    /// Bits for each second.
    pub bps: u32,
    /// Frames from one key frame to the next.
    pub gop: u32,
    pub sps: Option<Seq<u8>>,
    pub pps: Option<Seq<u8>>,
    /// The length of each sample.
    pub sizes: Seq<u32>,
    pub keyframes: Seq<bool>,
}

/// A stream of coded frames. Each frame gives one sample.
pub struct H264Stream {
    encoder: openh264::encoder::Encoder,
    w: usize,
    h: usize,
    fps: u32,
    bps: u32,
    gop: u32,
    sps: Option<Vec<u8>>,
    pps: Option<Vec<u8>>,
    sizes: Vec<u32>,
    keyframes: Vec<bool>,
}

impl View for H264Stream {
    type V = H264View;

    closed spec fn view(&self) -> H264View {
        H264View {
            w: self.w,
            h: self.h,
            fps: self.fps,
            bps: self.bps,
            gop: self.gop,
            sps: opt_bytes(self.sps),
            pps: opt_bytes(self.pps),
            sizes: self.sizes@,
            keyframes: self.keyframes@,
        }
    }
}

impl H264View {
    /// Whether the size of the picture can be handed to the encoder.
    pub open spec fn sized(self) -> bool {
        &&& self.w % 2 == 0 && self.h % 2 == 0
        &&& self.w <= i32::MAX && self.h <= i32::MAX
        &&& self.w * self.h * 3 <= usize::MAX
    }
}

/// A length rounded up to an even number.
pub open spec fn even_up(n: usize) -> int {
    n + n as int % 2
}

/// Whether frames of this size can be coded.
pub open spec fn codable(width: usize, height: usize) -> bool {
    &&& even_up(width) <= i32::MAX && even_up(height) <= i32::MAX
    &&& even_up(width) * even_up(height) * 3 <= usize::MAX
}

/// The bit rate for a picture: a twentieth of a bit for each pixel of each second, between 120
/// kbit/s and 20 Mbit/s.
pub open spec fn bit_rate(w: int, h: int, fps: u32) -> int {
    let b = w * h * fps / 20;
    if b < 120_000 {
        120_000
    } else if b > 20_000_000 {
        20_000_000
    } else {
        b
    }
}

/// A stream before its first frame.
pub open spec fn opened(width: usize, height: usize, fps: u32) -> H264View {
    H264View {
        w: even_up(width) as usize,
        h: even_up(height) as usize,
        fps,
        bps: bit_rate(even_up(width), even_up(height), fps) as u32,
        gop: fps,
        sps: None,
        pps: None,
        sizes: Seq::empty(),
        keyframes: Seq::empty(),
    }
}

/// The first unit of the given type.
pub open spec fn first_avc(s: Seq<Seq<u8>>, t: int) -> Option<Seq<u8>>
    decreases s.len(),
{
    if s.len() == 0 {
        None
    } else {
        match first_avc(s.drop_last(), t) {
            Some(n) => Some(n),
            None => if avc_type(s.last()) == t {
                Some(s.last())
            } else {
                None
            },
        }
    }
}

/// Whether any unit is part of a picture that can be decoded on its own.
pub open spec fn has_idr(s: Seq<Seq<u8>>) -> bool {
    exists|i: int| 0 <= i < s.len() && avc_type(#[trigger] s[i]) == 5
}

/// The units without their start codes.
pub open spec fn payloads(nals: Seq<Seq<u8>>) -> Seq<Seq<u8>> {
    nals.map_values(|n: Seq<u8>| unstarted(n))
}

/// What was there before, or else what was found.
pub open spec fn or_else(a: Option<Seq<u8>>, b: Option<Seq<u8>>) -> Option<Seq<u8>> {
    if a is Some {
        a
    } else {
        b
    }
}

/// The sample that the units of a coded frame make up.
pub open spec fn sample_of(nals: Seq<Seq<u8>>) -> Seq<u8> {
    packed(payloads(nals))
}

/// The stream with one more coded frame, which consists of the given units. The first parameter
/// sets are kept; the frame is a key frame if and only if it holds an IDR picture.
pub open spec fn coded(v: H264View, nals: Seq<Seq<u8>>) -> H264View {
    let p = payloads(nals);
    H264View {
        sps: or_else(v.sps, first_avc(p, 7)),
        pps: or_else(v.pps, first_avc(p, 8)),
        sizes: v.sizes.push(wrap32(packed(p).len() as int) as u32),
        keyframes: v.keyframes.push(has_idr(p)),
        ..v
    }
}

/// The key frames, with the first frame among them in any case.
pub open spec fn first_is_key(k: Seq<bool>) -> Seq<bool> {
    if k.len() > 0 {
        k.update(0, true)
    } else {
        k
    }
}

/// The decoder configuration of a stream, if its parameter sets are there.
pub open spec fn stream_private(v: H264View) -> Option<Seq<u8>> {
    match (v.sps, v.pps) {
        (Some(sps), Some(pps)) => if sps.len() >= 4 {
            Some(avcc(sps, pps))
        } else {
            None
        },
        _ => None,
    }
}

/// The error of a stream without parameter sets.
pub open spec fn no_parameter_sets() -> ErrorView {
    ErrorView::Encode("openh264 did not emit SPS/PPS (E007)"@)
}

/// The video that a stream and its samples make up.
pub open spec fn finished(v: H264View, samples: Seq<Seq<u8>>) -> Result<
    EncodedVideoView,
    ErrorView,
> {
    match stream_private(v) {
        None => Err(no_parameter_sets()),
        Some(codec_private) => Ok(
            EncodedVideoView {
                width: v.w as u32,
                height: v.h as u32,
                fps: v.fps,
                is_av1: false,
                is_hevc: false,
                frames: samples,
                codec_private,
                keyframes: first_is_key(v.keyframes),
            },
        ),
    }
}

fn round_even(n: usize) -> (r: usize)
    requires
        even_up(n) <= i32::MAX,
    ensures
        r == even_up(n),
{
    n + n % 2
}

/// Finds the bit rate for a picture.
pub(crate) fn find_bit_rate(w: u64, h: u64, fps: u32) -> (r: u32)
    requires
        w * h <= u64::MAX,
    ensures
        r == bit_rate(w as int, h as int, fps),
{
    let pixels: u128 = (w * h) as u128;
    assert(pixels * fps <= u64::MAX * u32::MAX) by (nonlinear_arith)
        requires
            pixels <= u64::MAX,
            fps <= u32::MAX,
    ;
    let b: u128 = pixels * fps as u128 / 20;
    if b < 120_000 {
        120_000
    } else if b > 20_000_000 {
        20_000_000
    } else {
        b as u32
    }
}

fn encode_error(what: &str, e: &openh264::Error) -> (r: CandyError)
    ensures
        exists|text: Seq<char>| r@ == ErrorView::Encode(what@ + text),
{
    let text = encoder_error_text(e);
    let message = join2(what, text.as_str());
    assert(message@ == what@ + text@);
    CandyError::Encode(message)
}

impl H264Stream {
    /// Opens a stream of frames of the given size.
    pub fn new(width: usize, height: usize, fps: u32) -> (r: Result<H264Stream, CandyError>)
        requires
            fps >= 1 ==> codable(width, height),
        ensures
            match r {
                Ok(s) => fps >= 1 && s@ == opened(width, height, fps) && s@.sized(),
                Err(e) => if fps < 1 {
                    e@ == ErrorView::Encode("fps must be >= 1"@)
                } else {
                    exists|text: Seq<char>|
                        e@ == ErrorView::Encode("openh264 init failed: "@ + text)
                },
            },
    {
        if fps < 1 {
            return Err(CandyError::Encode("fps must be >= 1".to_owned()));
        }
        let w: usize = round_even(width);
        let h: usize = round_even(height);
        assert(w * h <= w * h * 3) by (nonlinear_arith);
        let bps: u32 = find_bit_rate(w as u64, h as u64, fps);
        let gop: u32 = fps;
        match new_encoder(fps, bps, gop) {
            Err(e) => Err(encode_error("openh264 init failed: ", &e)),
            Ok(encoder) => {
                let r = H264Stream {
                    encoder,
                    w,
                    h,
                    fps,
                    bps,
                    gop,
                    sps: None,
                    pps: None,
                    sizes: Vec::new(),
                    keyframes: Vec::new(),
                };
                assert(r@ =~= opened(width, height, fps));
                Ok(r)
            },
        }
    }

    /// Takes the units of a coded frame into the stream and returns the sample that they make up.
    pub fn absorb(&mut self, nals: &Vec<Vec<u8>>) -> (r: Vec<u8>)
        ensures
            final(self)@ == coded(old(self)@, views(nals@)),
            r@ == sample_of(views(nals@)),
    {
        let ghost v = self@;
        let ghost p = payloads(views(nals@));
        let mut sample: Vec<u8> = Vec::new();
        let mut idr = false;
        let mut i: usize = 0;
        assert(p.take(0) =~= Seq::<Seq<u8>>::empty());
        while i < nals.len()
            invariant
                i <= nals@.len(),
                p == payloads(views(nals@)),
                sample@ == packed(p.take(i as int)),
                idr == has_idr(p.take(i as int)),
                self@ == (H264View {
                    sps: or_else(v.sps, first_avc(p.take(i as int), 7)),
                    pps: or_else(v.pps, first_avc(p.take(i as int), 8)),
                    ..v
                }),
            decreases nals.len() - i,
        {
            let ghost q = p.take(i + 1);
            proof {
                assert(q.drop_last() =~= p.take(i as int));
                assert(q.last() == unstarted(nals@[i as int]@));
            }
            let payload = nal_payload(nals[i].as_slice());
            let t: u8 = avc_type_of(&payload);
            if t == 5 {
                idr = true;
                assert(avc_type(q[i as int]) == 5);
            }
            proof {
                if t != 5 && has_idr(p.take(i as int)) {
                    let k = choose|k: int|
                        0 <= k < i && avc_type(#[trigger] p.take(i as int)[k]) == 5;
                    assert(q[k] == p.take(i as int)[k]);
                }
                if t != 5 && has_idr(q) {
                    let k = choose|k: int| 0 <= k < i + 1 && avc_type(#[trigger] q[k]) == 5;
                    assert(q[k] == p.take(i as int)[k]);
                }
            }
            if self.sps.is_none() && t == 7 {
                self.sps = Some(copy_of(&payload));
            } else if self.pps.is_none() && t == 8 {
                self.pps = Some(copy_of(&payload));
            }
            push_prefixed(&mut sample, &payload);
            i += 1;
        }
        assert(p.take(p.len() as int) =~= p);
        self.sizes.push(low32(sample.len()));
        self.keyframes.push(idr);
        sample
    }

    /// Codes a frame and returns its sample.
    pub fn push(&mut self, frame: &RenderedFrame) -> (r: Result<Vec<u8>, CandyError>)
        requires
            old(self)@.sized(),
            frame@.full(),
        ensures
            match r {
                Ok(sample) => exists|nals: Seq<Seq<u8>>|
                    final(self)@ == #[trigger] coded(old(self)@, nals) && sample@ == sample_of(
                        nals,
                    ),
                Err(e) => final(self)@ == old(self)@ && exists|text: Seq<char>|
                    e@ == ErrorView::Encode("openh264 encode failed: "@ + text),
            },
    {
        let yuv = rgba_to_i420_packed(frame, self.w, self.h);
        proof {
            lemma_halves(self.w as int, self.h as int);
        }
        let (w, h): (usize, usize) = (self.w, self.h);
        match encode_picture(&mut self.encoder, yuv, w, h) {
            Err(e) => Err(encode_error("openh264 encode failed: ", &e)),
            Ok(nals) => {
                let ghost n = views(nals@);
                let sample = self.absorb(&nals);
                assert(self@ == coded(old(self)@, n));
                Ok(sample)
            },
        }
    }

    /// Ends the stream: the video that it and its samples make up.
    pub fn finish(self, samples: Vec<Vec<u8>>) -> (r: Result<EncodedVideo, CandyError>)
        requires
            self@.sized(),
        ensures
            match r {
                Ok(v) => finished(self@, views(samples@)) == Ok::<EncodedVideoView, ErrorView>(
                    v@,
                ),
                Err(e) => finished(self@, views(samples@)) == Err::<EncodedVideoView, ErrorView>(
                    e@,
                ),
            },
    {
        let codec_private = match self.private() {
            Some(p) => p,
            None => {
                return Err(
                    CandyError::Encode("openh264 did not emit SPS/PPS (E007)".to_owned()),
                );
            },
        };
        let mut keyframes = self.keyframes;
        if keyframes.len() > 0 {
            keyframes.set(0, true);
        }
        Ok(
            EncodedVideo {
                width: self.w as u32,
                height: self.h as u32,
                fps: self.fps,
                is_av1: false,
                is_hevc: false,
                frames: samples,
                codec_private,
                keyframes,
            },
        )
    }

    /// Ends the stream: the video that it and the samples in the file at `samples_path` make up.
    pub fn finish_file(self, samples_path: String) -> (r: Result<EncodedVideoFile, CandyError>)
        requires
            self@.sized(),
        ensures
            match r {
                Ok(v) => stream_private(self@) == Some(v.codec_private@) && v.width == self@.w
                    && v.height == self@.h && v.fps == self@.fps && !v.is_av1 && !v.is_hevc && v.samples_path
                    == samples_path && v.sample_sizes@ == self@.sizes && v.keyframes@
                    == first_is_key(self@.keyframes),
                Err(e) => stream_private(self@) is None && e@ == no_parameter_sets(),
            },
    {
        let codec_private = match self.private() {
            Some(p) => p,
            None => {
                return Err(
                    CandyError::Encode("openh264 did not emit SPS/PPS (E007)".to_owned()),
                );
            },
        };
        let mut keyframes = self.keyframes;
        if keyframes.len() > 0 {
            keyframes.set(0, true);
        }
        Ok(
            EncodedVideoFile {
                width: self.w as u32,
                height: self.h as u32,
                fps: self.fps,
                is_av1: false,
                is_hevc: false,
                samples_path,
                sample_sizes: self.sizes,
                codec_private,
                keyframes,
            },
        )
    }

    fn private(&self) -> (r: Option<Vec<u8>>)
        ensures
            opt_bytes(r) == stream_private(self@),
    {
        match (&self.sps, &self.pps) {
            (Some(sps), Some(pps)) => if sps.len() >= 4 {
                Some(build_avcc(sps, pps))
            } else {
                None
            },
            _ => None,
        }
    }
}

proof fn lemma_halves(w: int, h: int)
    requires
        0 <= w,
        0 <= h,
        w % 2 == 0,
        h % 2 == 0,
    ensures
        w * h + (w / 2) * (h / 2) + (w / 2) * (h / 2) == w * h * 3 / 2,
{
    let a = w / 2;
    let b = h / 2;
    assert((2 * a) * (2 * b) == 4 * (a * b)) by (nonlinear_arith);
}

/// A stream and its samples after all frames, each of which was coded into the given units.
pub open spec fn run(v: H264View, all: Seq<Seq<Seq<u8>>>) -> (H264View, Seq<Seq<u8>>)
    decreases all.len(),
{
    if all.len() == 0 {
        (v, Seq::empty())
    } else {
        let (before, samples) = run(v, all.drop_last());
        (coded(before, all.last()), samples.push(sample_of(all.last())))
    }
}

/// What is reported where the encoder refuses to work.
pub open spec fn refused(e: ErrorView) -> bool {
    ||| exists|text: Seq<char>| e == ErrorView::Encode("openh264 init failed: "@ + text)
    ||| exists|text: Seq<char>| e == ErrorView::Encode("openh264 encode failed: "@ + text)
    ||| e == no_parameter_sets()
}

/// Codes frames into H.264. The size of the first frame is the size of the video.
pub fn encode(frames: &[RenderedFrame], fps: u32) -> (r: Result<EncodedVideo, CandyError>)
    requires
        frames@.len() > 0 && fps >= 1 ==> codable(frames@[0].width, frames@[0].height),
        fps >= 1 ==> forall|i: int| 0 <= i < frames@.len() ==> (#[trigger] frames@[i])@.full(),
    ensures
        frames@.len() == 0 ==> (r matches Err(e) && e@ == ErrorView::Encode(
            "cannot encode an empty animation"@,
        )),
        frames@.len() > 0 && fps < 1 ==> (r matches Err(e) && e@ == ErrorView::Encode(
            "fps must be >= 1"@,
        )),
        frames@.len() > 0 && fps >= 1 ==> (r matches Err(e) ==> refused(e@)),
        r matches Ok(v) ==> exists|all: Seq<Seq<Seq<u8>>>| all.len() == frames@.len() && ({
            let (s, samples) = #[trigger] run(
                opened(frames@[0].width, frames@[0].height, fps),
                all,
            );
            finished(s, samples) == Ok::<EncodedVideoView, ErrorView>(v@)
        }),
{
    if frames.len() == 0 {
        return Err(CandyError::Encode("cannot encode an empty animation".to_owned()));
    }
    let mut stream = match H264Stream::new(frames[0].width, frames[0].height, fps) {
        Ok(s) => s,
        Err(e) => {
            return Err(e);
        },
    };
    let ghost start = stream@;
    let ghost mut all: Seq<Seq<Seq<u8>>> = Seq::empty();
    let mut samples: Vec<Vec<u8>> = Vec::new();
    let mut i: usize = 0;
    assert(views(samples@) =~= Seq::<Seq<u8>>::empty());
    while i < frames.len()
        invariant
            i <= frames@.len(),
            forall|k: int| 0 <= k < frames@.len() ==> (#[trigger] frames@[k])@.full(),
            stream@.sized(),
            all.len() == i,
            run(start, all) == (stream@, views(samples@)),
            frames@.len() > 0,
            fps >= 1,
        decreases frames.len() - i,
    {
        let ghost before = stream@;
        let sample = match stream.push(&frames[i]) {
            Ok(sample) => sample,
            Err(e) => {
                return Err(e);
            },
        };
        proof {
            let nals = choose|nals: Seq<Seq<u8>>|
                stream@ == #[trigger] coded(before, nals) && sample@ == sample_of(nals);
            assert(all.push(nals).drop_last() =~= all);
            assert(views(samples@.push(sample)) =~= views(samples@).push(sample@));
            all = all.push(nals);
        }
        samples.push(sample);
        i += 1;
    }
    stream.finish(samples)
}

// ---------------------------------------------------------------- laws

/// A finished video has one sample and one flag for each frame, its first frame is a key frame,
/// and of the other frames exactly those are marked that hold an IDR picture.
pub proof fn law_key_frames_are_honest(v: H264View, all: Seq<Seq<Seq<u8>>>, i: int)
    requires
        v.keyframes.len() == 0,
        0 <= i < all.len(),
        finished(run(v, all).0, run(v, all).1) is Ok,
    ensures
        ({
            let out = finished(run(v, all).0, run(v, all).1)->Ok_0;
            &&& out.frames.len() == all.len()
            &&& out.keyframes.len() == all.len()
            &&& out.frames[i] == sample_of(all[i])
            &&& out.keyframes[0]
            &&& i > 0 ==> out.keyframes[i] == has_idr(payloads(all[i]))
        }),
{
    lemma_run(v, all, i);
}

proof fn lemma_run(v: H264View, all: Seq<Seq<Seq<u8>>>, i: int)
    requires
        v.keyframes.len() == 0,
        0 <= i < all.len(),
    ensures
        run(v, all).0.keyframes.len() == all.len(),
        run(v, all).1.len() == all.len(),
        run(v, all).1[i] == sample_of(all[i]),
        run(v, all).0.keyframes[i] == has_idr(payloads(all[i])),
    decreases all.len(),
{
    let rest = all.drop_last();
    if rest.len() > 0 {
        if i < rest.len() {
            lemma_run(v, rest, i);
        } else {
            lemma_run(v, rest, 0);
        }
    } else {
        assert(run(v, rest) == (v, Seq::<Seq<u8>>::empty()));
    }
}

} // verus!
