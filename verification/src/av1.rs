//! AV1: what goes into the encoder and what is made of its packets.

use vstd::prelude::*;
use vstd::string::*;
use crate::bitstream::{first_obu, first_obu_of_type, opt_bytes};
use crate::bytes::{low32, push_all, views, wrap32};
use crate::color::{full_grid, plane, rgba_to_444, Channel, Planes};
use crate::diag::{CandyError, CandyWarn, ErrorView, WarnView};
use crate::h264::first_is_key;
use crate::scene::seq_view;
use crate::video::{EncodedVideo, EncodedVideoFile, EncodedVideoView, RenderedFrame};

verus! {

/// A packet of the encoder: a temporal unit.
#[derive(Debug)]
pub struct Packet {
    pub data: Vec<u8>,
    pub key: bool,
}

/// The value of a [`Packet`].
pub struct PacketView {
    pub data: Seq<u8>,
    pub key: bool,
}

impl View for Packet {
    type V = PacketView;

    open spec fn view(&self) -> PacketView {
        PacketView { data: self.data@, key: self.key }
    }
}

/// A length rounded up to whole superblocks of 64 pixels, at least one.
pub open spec fn superblocks(n: usize) -> int {
    if n <= 64 {
        64
    } else {
        (n + 63) / 64 * 64
    }
}

/// A length rounded up to whole superblocks of 64 pixels, at least one.
pub fn round_up_64(n: usize) -> (r: usize)
    requires
        superblocks(n) <= usize::MAX,
    ensures
        r == superblocks(n),
        n <= r,
        r % 64 == 0,
{
    if n <= 64 {
        64
    } else {
        let rest: usize = n % 64;
        if rest == 0 {
            n
        } else {
            n + (64 - rest)
        }
    }
}

/// How many frames there are at most from one key frame to the next: one where every frame is a
/// key frame, and those of a second otherwise.
pub open spec fn key_interval(fps: u32, all_intra: bool) -> u64 {
    if all_intra {
        1
    } else {
        fps as u64
    }
}

/// How many frames there are at most from one key frame to the next.
pub fn find_key_interval(fps: u32, all_intra: bool) -> (r: u64)
    ensures
        r == key_interval(fps, all_intra),
{
    if all_intra {
        1
    } else {
        fps as u64
    }
}

/// A stream of packets.
#[derive(Debug)]
pub struct Av1Stream {
    w: usize,
    h: usize,
    fps: u32,
    seq_header: Option<Vec<u8>>,
    sizes: Vec<u32>,
    keyframes: Vec<bool>,
}

/// The value of an [`Av1Stream`].
#[verifier::ext_equal]
pub struct Av1View {
    pub w: usize,
    pub h: usize,
    pub fps: u32,
    /// The first sequence header, with the header of its OBU.
    pub seq_header: Option<Seq<u8>>,
    /// The length of each packet.
    pub sizes: Seq<u32>,
    pub keyframes: Seq<bool>,
}

impl View for Av1Stream {
    type V = Av1View;

    closed spec fn view(&self) -> Av1View {
        Av1View {
            w: self.w,
            h: self.h,
            fps: self.fps,
            seq_header: opt_bytes(self.seq_header),
            sizes: self.sizes@,
            keyframes: self.keyframes@,
        }
    }
}

/// Whether a picture of this size can be described.
pub open spec fn av1_codable(width: usize, height: usize) -> bool {
    superblocks(width) <= u32::MAX && superblocks(height) <= u32::MAX
}

/// A stream before its first packet.
pub open spec fn opened(width: usize, height: usize, fps: u32) -> Av1View {
    Av1View {
        w: superblocks(width) as usize,
        h: superblocks(height) as usize,
        fps,
        seq_header: None,
        sizes: Seq::empty(),
        keyframes: Seq::empty(),
    }
}

/// The stream with one more packet.
pub open spec fn captured(v: Av1View, p: PacketView) -> Av1View {
    Av1View {
        seq_header: if v.seq_header is Some {
            v.seq_header
        } else {
            first_obu(p.data, 0, 1)
        },
        sizes: v.sizes.push(wrap32(p.data.len() as int) as u32),
        keyframes: v.keyframes.push(p.key),
        ..v
    }
}

/// The stream with all packets.
pub open spec fn all_captured(v: Av1View, s: Seq<PacketView>) -> Av1View
    decreases s.len(),
{
    if s.len() == 0 {
        v
    } else {
        captured(all_captured(v, s.drop_last()), s.last())
    }
}

/// The decoder configuration of a stream.
pub open spec fn stream_private(v: Av1View) -> Seq<u8> {
    seq![0x81u8, 0x01u8] + match v.seq_header {
        Some(h) => h,
        None => Seq::empty(),
    }
}

/// The video that a stream and its samples make up.
pub open spec fn finished(v: Av1View, samples: Seq<Seq<u8>>) -> EncodedVideoView {
    EncodedVideoView {
        width: v.w as u32,
        height: v.h as u32,
        fps: v.fps,
        is_av1: true,
        is_hevc: false,
        frames: samples,
        codec_private: stream_private(v),
        keyframes: first_is_key(v.keyframes),
    }
}

impl Av1Stream {
    /// Opens a stream of frames of the given size.
    pub fn new(width: usize, height: usize, fps: u32) -> (r: Result<Av1Stream, CandyError>)
        requires
            fps >= 1 ==> av1_codable(width, height),
        ensures
            match r {
                Ok(s) => fps >= 1 && s@ == opened(width, height, fps),
                Err(e) => fps < 1 && e@ == ErrorView::Encode("fps must be >= 1"@),
            },
    {
        if fps < 1 {
            return Err(CandyError::Encode("fps must be >= 1".to_owned()));
        }
        let r = Av1Stream {
            w: round_up_64(width),
            h: round_up_64(height),
            fps,
            seq_header: None,
            sizes: Vec::new(),
            keyframes: Vec::new(),
        };
        assert(r@ =~= opened(width, height, fps));
        Ok(r)
    }

    /// The width of the picture that the encoder takes.
    pub fn width(&self) -> (r: usize)
        ensures
            r == self@.w,
    {
        self.w
    }

    /// The height of the picture that the encoder takes.
    pub fn height(&self) -> (r: usize)
        ensures
            r == self@.h,
    {
        self.h
    }

    /// The planes that the encoder takes for a frame.
    pub fn planes(&self, frame: &RenderedFrame) -> (r: Planes)
        requires
            frame@.full(),
            frame@.width <= self@.w,
            frame@.height <= self@.h,
        ensures
            r.y@ == plane(
                frame@,
                full_grid(frame@, Channel::Luma),
                self@.w as nat,
                self@.h as nat,
            ),
            r.u@ == plane(
                frame@,
                full_grid(frame@, Channel::Blue),
                self@.w as nat,
                self@.h as nat,
            ),
            r.v@ == plane(
                frame@,
                full_grid(frame@, Channel::Red),
                self@.w as nat,
                self@.h as nat,
            ),
    {
        rgba_to_444(frame, self.w, self.h)
    }

    /// Takes a packet into the stream.
    pub fn capture(&mut self, data: &[u8], key: bool)
        ensures
            final(self)@ == captured(old(self)@, PacketView { data: data@, key }),
    {
        if self.seq_header.is_none() {
            self.seq_header = first_obu_of_type(data, 1);
        }
        self.sizes.push(low32(data.len()));
        self.keyframes.push(key);
    }

    fn private(&self) -> (r: Vec<u8>)
        ensures
            r@ == stream_private(self@),
    {
        let mut r: Vec<u8> = vec![0x81, 0x01];
        assert(r@ =~= seq![0x81u8, 0x01u8]);
        if let Some(h) = &self.seq_header {
            push_all(&mut r, h.as_slice());
        } else {
            assert(r@ =~= r@ + Seq::<u8>::empty());
        }
        r
    }

    /// Ends the stream: the video that it and its samples make up.
    pub fn finish(self, samples: Vec<Vec<u8>>) -> (r: EncodedVideo)
        requires
            self@.w <= u32::MAX,
            self@.h <= u32::MAX,
        ensures
            r@ == finished(self@, views(samples@)),
    {
        let codec_private = self.private();
        let mut keyframes = self.keyframes;
        if keyframes.len() > 0 {
            keyframes.set(0, true);
        }
        EncodedVideo {
            width: self.w as u32,
            height: self.h as u32,
            fps: self.fps,
            is_av1: true,
            is_hevc: false,
            frames: samples,
            codec_private,
            keyframes,
        }
    }

    /// Ends the stream: the video that it and the samples in the file at `samples_path` make up.
    pub fn finish_file(self, samples_path: String) -> (r: EncodedVideoFile)
        requires
            self@.w <= u32::MAX,
            self@.h <= u32::MAX,
        ensures
            r.width == self@.w,
            r.height == self@.h,
            r.fps == self@.fps,
            r.is_av1,
            !r.is_hevc,
            r.samples_path == samples_path,
            r.sample_sizes@ == self@.sizes,
            r.codec_private@ == stream_private(self@),
            r.keyframes@ == first_is_key(self@.keyframes),
    {
        let codec_private = self.private();
        let mut keyframes = self.keyframes;
        if keyframes.len() > 0 {
            keyframes.set(0, true);
        }
        EncodedVideoFile {
            width: self.w as u32,
            height: self.h as u32,
            fps: self.fps,
            is_av1: true,
            is_hevc: false,
            samples_path,
            sample_sizes: self.sizes,
            codec_private,
            keyframes,
        }
    }
}

/// The coded bytes of each packet.
pub open spec fn packet_data(s: Seq<PacketView>) -> Seq<Seq<u8>> {
    s.map_values(|p: PacketView| p.data)
}

/// The video that packets make up.
pub open spec fn assembled(
    width: usize,
    height: usize,
    fps: u32,
    s: Seq<PacketView>,
) -> EncodedVideoView {
    finished(all_captured(opened(width, height, fps), s), packet_data(s))
}

/// Puts the packets of an encoder together to a video.
pub fn assemble(width: usize, height: usize, fps: u32, packets: Vec<Packet>) -> (r: Result<
    EncodedVideo,
    CandyError,
>)
    requires
        fps >= 1 ==> av1_codable(width, height),
    ensures
        match r {
            Ok(v) => fps >= 1 && v@ == assembled(width, height, fps, seq_view(packets@)),
            Err(e) => fps < 1 && e@ == ErrorView::Encode("fps must be >= 1"@),
        },
{
    let mut stream = match Av1Stream::new(width, height, fps) {
        Ok(s) => s,
        Err(e) => {
            return Err(e);
        },
    };
    let ghost start = stream@;
    let ghost s = seq_view(packets@);
    let mut samples: Vec<Vec<u8>> = Vec::new();
    let mut i: usize = 0;
    assert(s.take(0) =~= Seq::<PacketView>::empty());
    assert(views(samples@) =~= packet_data(s.take(0)));
    while i < packets.len()
        invariant
            i <= packets@.len(),
            s == seq_view(packets@),
            stream@ == all_captured(start, s.take(i as int)),
            stream@.w == start.w,
            stream@.h == start.h,
            views(samples@) == packet_data(s.take(i as int)),
        decreases packets.len() - i,
    {
        assert(s.take(i + 1).drop_last() =~= s.take(i as int));
        assert(s[i as int] == packets@[i as int]@);
        stream.capture(packets[i].data.as_slice(), packets[i].key);
        let data = crate::bitstream::copy_of(&packets[i].data);
        let ghost before = samples@;
        samples.push(data);
        assert(views(samples@) =~= views(before).push(data@));
        assert(packet_data(s.take(i + 1)) =~= packet_data(s.take(i as int)).push(
            s[i as int].data,
        ));
        i += 1;
    }
    assert(s.take(s.len() as int) =~= s);
    Ok(stream.finish(samples))
}

// ---------------------------------------------------------------- attempts

/// What became of an attempt to code all frames.
#[derive(Debug)]
pub enum Attempt {
    Packets(Vec<Packet>),
    /// The encoder reported an error.
    Failed(String),
    /// The encoder gave up in the middle.
    Aborted,
}

/// What to do after an attempt.
#[derive(Debug)]
pub enum Step {
    /// Try once more with key frames only, and warn of it.
    Retry(CandyWarn),
    Done(Result<EncodedVideo, CandyError>),
}

/// Decides what to do after an attempt to code frames of the given size. An encoder that gives up
/// is tried once more with key frames only; then that is an error.
pub fn after_attempt(
    width: usize,
    height: usize,
    fps: u32,
    all_intra: bool,
    attempt: Attempt,
) -> (r: Step)
    requires
        fps >= 1 && attempt is Packets ==> av1_codable(width, height),
    ensures
        match attempt {
            Attempt::Aborted => if all_intra {
                r matches Step::Done(Err(e)) && e@ == ErrorView::Encode(
                    "rav1e aborted during AV1 encoding (E007); falling back to H.264"@,
                )
            } else {
                r matches Step::Retry(w) && w@ == WarnView::EncodeRetry
            },
            Attempt::Failed(m) => r matches Step::Done(Err(e)) && e@ == ErrorView::Encode(m@),
            Attempt::Packets(p) => if fps < 1 {
                r matches Step::Done(Err(e)) && e@ == ErrorView::Encode("fps must be >= 1"@)
            } else {
                r matches Step::Done(Ok(v)) && v@ == assembled(width, height, fps, seq_view(p@))
            },
        },
{
    match attempt {
        Attempt::Aborted => if all_intra {
            Step::Done(
                Err(
                    CandyError::Encode(
                        "rav1e aborted during AV1 encoding (E007); falling back to H.264".to_owned(),
                    ),
                ),
            )
        } else {
            Step::Retry(CandyWarn::EncodeRetry)
        },
        Attempt::Failed(m) => Step::Done(Err(CandyError::Encode(m))),
        Attempt::Packets(p) => Step::Done(assemble(width, height, fps, p)),
    }
}

// ---------------------------------------------------------------- laws

/// A video has one sample and one flag for each packet, the samples are the packets, and the
/// first one is a key frame.
pub proof fn law_packets_are_samples(
    width: usize,
    height: usize,
    fps: u32,
    s: Seq<PacketView>,
    i: int,
)
    requires
        0 <= i < s.len(),
    ensures
        ({
            let v = assembled(width, height, fps, s);
            &&& v.frames.len() == s.len()
            &&& v.keyframes.len() == s.len()
            &&& v.frames[i] == s[i].data
            &&& v.keyframes[0]
            &&& i > 0 ==> v.keyframes[i] == s[i].key
        }),
{
    lemma_all_captured(opened(width, height, fps), s);
}

proof fn lemma_all_captured(v: Av1View, s: Seq<PacketView>)
    requires
        v.keyframes.len() == 0,
    ensures
        all_captured(v, s).keyframes.len() == s.len(),
        forall|i: int|
            0 <= i < s.len() ==> #[trigger] all_captured(v, s).keyframes[i] == s[i].key,
    decreases s.len(),
{
    if s.len() > 0 {
        lemma_all_captured(v, s.drop_last());
    }
}

} // verus!
