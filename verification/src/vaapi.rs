//! Hardware coding through VAAPI: what the driver is asked for, and what is made of its answers.
//!
//! Every frame is coded on its own, so each of them is a key frame.

use vstd::prelude::*;
use vstd::string::*;
use crate::bitstream::{
    av1_private, avc_private, find_last_avc, hevc_private, last_avc, obus, packed, private_after,
    process_av1, process_h264, process_hevc, sample_bytes, split_annexb, units,
};
use crate::bytes::{low16, low32, wrap32};
use crate::diag::{CandyError, ErrorView};
use crate::ffmpeg::{signed, write_signed};
use crate::text::{join2, join3};
use crate::video::{codec_name, name_of, Codec, EncodedVideoFile};

verus! {

// ---------------------------------------------------------------- opening

/// What a driver can be asked to code.
#[derive(Debug, Clone, Copy, PartialEq, Eq, Structural)]
pub enum Profile {
    H264High,
    HevcMain,
    Av1Main,
}

/// The profile of a codec that goes to the driver without ffmpeg.
pub open spec fn profile_of(codec: Codec) -> Option<Profile> {
    match codec {
        Codec::H264Libva => Some(Profile::H264High),
        Codec::H265Libva => Some(Profile::HevcMain),
        Codec::Av1Libva => Some(Profile::Av1Main),
        _ => None,
    }
}

/// Finds the profile for a codec. `has_device` tells whether the render node is there.
pub fn find_profile(codec: Codec, has_device: bool) -> (r: Result<Profile, CandyError>)
    ensures
        if !has_device {
            r matches Err(e) && e@ == ErrorView::Libva(
                "libva not available: /dev/dri/renderD128 not found. Install libva + a VAAPI-capable GPU driver (e.g. intel-media-va-driver-non-free)."@,
            )
        } else {
            match profile_of(codec) {
                Some(p) => r == Ok::<Profile, CandyError>(p),
                None => r matches Err(e) && e@ == ErrorView::Libva(
                    "codec "@ + codec_name(codec) + " is not a direct-libva codec"@,
                ),
            }
        },
{
    if !has_device {
        return Err(
            CandyError::Libva(
                "libva not available: /dev/dri/renderD128 not found. Install libva + a VAAPI-capable GPU driver (e.g. intel-media-va-driver-non-free).".to_owned(),
            ),
        );
    }
    match codec {
        Codec::H264Libva => Ok(Profile::H264High),
        Codec::H265Libva => Ok(Profile::HevcMain),
        Codec::Av1Libva => Ok(Profile::Av1Main),
        _ => {
            let message = join3("codec ", name_of(codec), " is not a direct-libva codec");
            Err(CandyError::Libva(message))
        },
    }
}

/// Judges the status that a call of the driver gave back; 0 is success.
pub fn va_ok(status: i32, call: &str) -> (r: Result<(), CandyError>)
    ensures
        if status == 0 {
            r is Ok
        } else {
            r matches Err(e) && e@ == ErrorView::Libva(
                "libva "@ + call@ + " failed (VAStatus "@ + (signed(status as int) + ")"@),
            )
        },
{
    if status == 0 {
        return Ok(());
    }
    let start = join3("libva ", call, " failed (VAStatus ");
    let end = join2(write_signed(status).as_str(), ")");
    Err(CandyError::Libva(join2(start.as_str(), end.as_str())))
}

/// Whether the driver can code slices: `wanted` is among the entry points that it lists for a
/// profile. `number` is the profile as the driver counts them.
pub fn check_entrypoints(number: i32, entrypoints: &[i32], wanted: i32) -> (r: Result<
    (),
    CandyError,
>)
    ensures
        if entrypoints@.contains(wanted) {
            r is Ok
        } else {
            r matches Err(e) && e@ == ErrorView::Libva(
                "VAAPI profile "@ + signed(number as int)
                    + " does not support the encode (EncSlice) entrypoint on this hardware"@,
            )
        },
{
    let total: usize = entrypoints.len();
    let mut i: usize = 0;
    while i < total
        invariant
            i <= total == entrypoints@.len(),
            forall|k: int| 0 <= k < i ==> entrypoints@[k] != wanted,
        decreases total - i,
    {
        if entrypoints[i] == wanted {
            assert(entrypoints@[i as int] == wanted);
            return Ok(());
        }
        i += 1;
    }
    Err(
        CandyError::Libva(
            join3(
                "VAAPI profile ",
                write_signed(number).as_str(),
                " does not support the encode (EncSlice) entrypoint on this hardware",
            ),
        ),
    )
}

// ---------------------------------------------------------------- parameters

/// What the driver is told of the stream as a whole. What is not named here is 0.
#[derive(Debug, Clone, Copy, PartialEq, Eq, Structural)]
pub enum Sequence {
    H264 {
        level_idc: u8,
        intra_period: u32,
        intra_idr_period: u32,
        ip_period: u32,
        max_num_ref_frames: u32,
        picture_width_in_mbs: u16,
        picture_height_in_mbs: u16,
        chroma_format_idc: u32,
        frame_mbs_only_flag: u32,
    },
    Hevc {
        general_profile_idc: u8,
        general_level_idc: u8,
        intra_period: u32,
        intra_idr_period: u32,
        ip_period: u32,
        pic_width_in_luma_samples: u16,
        pic_height_in_luma_samples: u16,
        chroma_format_idc: u32,
        log2_diff_max_min_luma_coding_block_size: u8,
    },
    Av1 {
        seq_level_idx: u8,
        intra_period: u32,
        ip_period: u32,
        use_128x128_superblock: u32,
    },
}

/// How many bits the driver may spend. What is not named here is 0.
#[derive(Debug, Clone, Copy, PartialEq, Eq, Structural)]
pub struct RateControl {
    pub target_percentage: u32,
    pub initial_qp: u32,
    pub min_qp: u32,
    pub max_qp: u32,
}

/// What the driver is told of one picture. What is not named here is 0.
#[derive(Debug, Clone, Copy, PartialEq, Eq, Structural)]
pub enum Picture {
    H264 { surface: u32, coded_buf: u32, pic_init_qp: u8, idr_pic_flag: u32 },
    Hevc { surface: u32, coded_buf: u32, pic_init_qp: u8, nal_unit_type: u8, idr_pic_flag: u32 },
    Av1 {
        coded_buf: u32,
        frame_width_minus_1: u16,
        frame_height_minus_1: u16,
        base_qindex: u8,
        frame_type: u32,
        refresh_frame_flags: u8,
    },
}

/// What the driver is told of the one slice, or group of tiles, of a picture. What is not named
/// here is 0.
#[derive(Debug, Clone, Copy, PartialEq, Eq, Structural)]
pub enum Slice {
    H264 { num_macroblocks: u32, slice_type: u8, idr_pic_id: u16 },
    Hevc { num_ctu_in_slice: u32, slice_type: u8, max_num_merge_cand: u8 },
    Av1,
}

/// The 16 low-order bits of a number.
pub open spec fn wrap16(n: int) -> u16 {
    (n % 0x1_0000) as u16
}

/// The parameters of a stream of pictures that stand on their own.
pub open spec fn sequence_of(p: Profile, w: u32, h: u32) -> Sequence {
    match p {
        Profile::H264High => Sequence::H264 {
            level_idc: 40,
            intra_period: 1,
            intra_idr_period: 1,
            ip_period: 1,
            max_num_ref_frames: 1,
            picture_width_in_mbs: wrap16(w as int / 16),
            picture_height_in_mbs: wrap16(h as int / 16),
            chroma_format_idc: 1,
            frame_mbs_only_flag: 1,
        },
        Profile::HevcMain => Sequence::Hevc {
            general_profile_idc: 1,
            general_level_idc: 93,
            intra_period: 1,
            intra_idr_period: 1,
            ip_period: 1,
            pic_width_in_luma_samples: wrap16(w as int),
            pic_height_in_luma_samples: wrap16(h as int),
            chroma_format_idc: 1,
            log2_diff_max_min_luma_coding_block_size: 1,
        },
        Profile::Av1Main => Sequence::Av1 {
            seq_level_idx: 4,
            intra_period: 1,
            ip_period: 1,
            use_128x128_superblock: 1,
        },
    }
}

/// Makes the parameters of a stream.
pub fn make_sequence(p: Profile, w: u32, h: u32) -> (r: Sequence)
    ensures
        r == sequence_of(p, w, h),
{
    match p {
        Profile::H264High => Sequence::H264 {
            level_idc: 40,
            intra_period: 1,
            intra_idr_period: 1,
            ip_period: 1,
            max_num_ref_frames: 1,
            picture_width_in_mbs: low16(w / 16),
            picture_height_in_mbs: low16(h / 16),
            chroma_format_idc: 1,
            frame_mbs_only_flag: 1,
        },
        Profile::HevcMain => Sequence::Hevc {
            general_profile_idc: 1,
            general_level_idc: 93,
            intra_period: 1,
            intra_idr_period: 1,
            ip_period: 1,
            pic_width_in_luma_samples: low16(w),
            pic_height_in_luma_samples: low16(h),
            chroma_format_idc: 1,
            log2_diff_max_min_luma_coding_block_size: 1,
        },
        Profile::Av1Main => Sequence::Av1 {
            seq_level_idx: 4,
            intra_period: 1,
            ip_period: 1,
            use_128x128_superblock: 1,
        },
    }
}

/// Makes the rate control: a constant quantizer.
pub fn make_rate_control() -> (r: RateControl)
    ensures
        r == (RateControl { target_percentage: 100, initial_qp: 26, min_qp: 1, max_qp: 51 }),
{
    RateControl { target_percentage: 100, initial_qp: 26, min_qp: 1, max_qp: 51 }
}

/// The parameters of a picture.
pub open spec fn picture_of(p: Profile, w: u32, h: u32, surface: u32, coded_buf: u32, idr: bool) -> Picture {
    let flag: u32 = if idr {
        1
    } else {
        0
    };
    match p {
        Profile::H264High => Picture::H264 { surface, coded_buf, pic_init_qp: 26, idr_pic_flag: flag },
        Profile::HevcMain => Picture::Hevc {
            surface,
            coded_buf,
            pic_init_qp: 26,
            nal_unit_type: if idr {
                19
            } else {
                1
            },
            idr_pic_flag: flag,
        },
        Profile::Av1Main => Picture::Av1 {
            coded_buf,
            frame_width_minus_1: wrap16(w - 1),
            frame_height_minus_1: wrap16(h - 1),
            base_qindex: 128,
            frame_type: if idr {
                0
            } else {
                1
            },
            refresh_frame_flags: if idr {
                255
            } else {
                0
            },
        },
    }
}

/// Makes the parameters of a picture.
pub fn make_picture(p: Profile, w: u32, h: u32, surface: u32, coded_buf: u32, idr: bool) -> (r:
    Picture)
    requires
        w >= 1,
        h >= 1,
    ensures
        r == picture_of(p, w, h, surface, coded_buf, idr),
{
    let flag: u32 = if idr {
        1
    } else {
        0
    };
    match p {
        Profile::H264High => Picture::H264 { surface, coded_buf, pic_init_qp: 26, idr_pic_flag: flag },
        Profile::HevcMain => Picture::Hevc {
            surface,
            coded_buf,
            pic_init_qp: 26,
            nal_unit_type: if idr {
                19
            } else {
                1
            },
            idr_pic_flag: flag,
        },
        Profile::Av1Main => Picture::Av1 {
            coded_buf,
            frame_width_minus_1: low16(w - 1),
            frame_height_minus_1: low16(h - 1),
            base_qindex: 128,
            frame_type: if idr {
                0
            } else {
                1
            },
            refresh_frame_flags: if idr {
                255
            } else {
                0
            },
        },
    }
}

/// How many blocks of `side` pixels start in `n` pixels.
pub open spec fn blocks_up(n: u32, side: int) -> int {
    (n + side - 1) / side
}

/// The number of macroblocks, or of coding tree units, of a picture.
pub open spec fn block_count(p: Profile, w: u32, h: u32) -> int {
    match p {
        Profile::H264High => (w as int / 16) * (h as int / 16),
        Profile::HevcMain => blocks_up(w, 64) * blocks_up(h, 64),
        Profile::Av1Main => 0,
    }
}

/// The parameters of a slice of the picture with the given number.
pub open spec fn slice_of(p: Profile, w: u32, h: u32, number: int, idr: bool) -> Slice {
    let slice_type: u8 = if idr {
        2
    } else {
        0
    };
    match p {
        Profile::H264High => Slice::H264 {
            num_macroblocks: block_count(p, w, h) as u32,
            slice_type,
            idr_pic_id: if idr {
                wrap16(number)
            } else {
                0
            },
        },
        Profile::HevcMain => Slice::Hevc {
            num_ctu_in_slice: block_count(p, w, h) as u32,
            slice_type,
            max_num_merge_cand: 3,
        },
        Profile::Av1Main => Slice::Av1,
    }
}

/// Whether a picture of this size can be described: the buffer for its code has a size that
/// fits 32 bits.
pub open spec fn describable(w: u32, h: u32) -> bool {
    1 <= w && 1 <= h && w * h * 2 + 65536 <= u32::MAX
}

/// Finds whether a picture of this size can be described.
pub fn is_describable(w: u32, h: u32) -> (r: bool)
    ensures
        r == describable(w, h),
{
    assert(w * h <= u32::MAX * u32::MAX) by (nonlinear_arith)
        requires
            w <= u32::MAX,
            h <= u32::MAX,
    ;
    w >= 1 && h >= 1 && w as u128 * h as u128 * 2 + 65536 <= u32::MAX as u128
}

proof fn lemma_block_counts(w: u32, h: u32)
    requires
        describable(w, h),
    ensures
        (w as int / 16) * (h as int / 16) <= u32::MAX,
        blocks_up(w, 64) <= w,
        blocks_up(h, 64) <= h,
        0 <= blocks_up(w, 64) * blocks_up(h, 64) <= u32::MAX,
{
    let (a, b) = (w as int / 16, h as int / 16);
    assert(a * b <= w * h) by (nonlinear_arith)
        requires
            0 <= a <= w,
            0 <= b <= h,
    ;
    let (c, d) = (blocks_up(w, 64), blocks_up(h, 64));
    assert(0 <= c * d <= w * h) by (nonlinear_arith)
        requires
            0 <= c <= w,
            0 <= d <= h,
    ;
}

/// Makes the parameters of a slice.
pub fn make_slice(p: Profile, w: u32, h: u32, number: usize, idr: bool) -> (r: Slice)
    requires
        describable(w, h),
    ensures
        r == slice_of(p, w, h, number as int, idr),
{
    proof {
        lemma_block_counts(w, h);
    }
    let slice_type: u8 = if idr {
        2
    } else {
        0
    };
    match p {
        Profile::H264High => Slice::H264 {
            num_macroblocks: (w / 16) * (h / 16),
            slice_type,
            idr_pic_id: if idr {
                low16(low32(number))
            } else {
                0
            },
        },
        Profile::HevcMain => {
            let across: u32 = ((w as u64 + 63) / 64) as u32;
            let down: u32 = ((h as u64 + 63) / 64) as u32;
            Slice::Hevc { num_ctu_in_slice: across * down, slice_type, max_num_merge_cand: 3 }
        },
        Profile::Av1Main => Slice::Av1,
    }
}

/// How large a buffer the code of a picture gets.
pub fn coded_size(w: u32, h: u32) -> (r: u32)
    requires
        describable(w, h),
    ensures
        r == w * h * 2 + 65536,
{
    assert(0 <= w * h) by (nonlinear_arith)
        requires
            0 <= w,
            0 <= h,
    ;
    w * h * 2 + 65536
}

// ---------------------------------------------------------------- the stream

/// A stream of pictures that a driver codes.
#[verifier::ext_equal]
pub struct VaView {
    pub profile: Profile,
    pub w: u32,
    pub h: u32,
    pub fps: u32,
    /// Whether the driver has been told of the stream as a whole.
    pub announced: bool,
    pub sizes: Seq<u32>,
    pub keyframes: Seq<bool>,
    pub codec_private: Seq<u8>,
}

/// A stream of pictures, without the driver behind it.
#[derive(Debug)]
pub struct LibvaStream {
    profile: Profile,
    w: u32,
    h: u32,
    fps: u32,
    announced: bool,
    sizes: Vec<u32>,
    keyframes: Vec<bool>,
    codec_private: Vec<u8>,
}

impl View for LibvaStream {
    type V = VaView;

    closed spec fn view(&self) -> VaView {
        VaView {
            profile: self.profile,
            w: self.w,
            h: self.h,
            fps: self.fps,
            announced: self.announced,
            sizes: self.sizes@,
            keyframes: self.keyframes@,
            codec_private: self.codec_private@,
        }
    }
}

/// What the driver is handed for one picture, in this order.
#[derive(Debug, Clone, Copy, PartialEq, Eq)]
pub struct Request {
    /// The stream as a whole, its rate control and its frames for each second: with the first
    /// picture only.
    pub stream: Option<(Sequence, RateControl, u32)>,
    pub picture: Picture,
    pub slice: Slice,
}

/// What the driver is handed for the next picture of a stream.
pub open spec fn request_of(v: VaView, surface: u32, coded_buf: u32) -> Request {
    Request {
        stream: if v.announced {
            None
        } else {
            Some(
                (
                    sequence_of(v.profile, v.w, v.h),
                    RateControl { target_percentage: 100, initial_qp: 26, min_qp: 1, max_qp: 51 },
                    v.fps,
                ),
            )
        },
        picture: picture_of(v.profile, v.w, v.h, surface, coded_buf, true),
        slice: slice_of(v.profile, v.w, v.h, v.sizes.len() as int, true),
    }
}

/// The sample that the code of a picture makes up.
pub open spec fn va_sample(p: Profile, raw: Seq<u8>) -> Seq<u8> {
    match p {
        Profile::Av1Main => sample_bytes(obus(raw, 0)),
        _ => packed(units(raw, 0)),
    }
}

/// The decoder configuration that the code of a picture gives.
pub open spec fn va_private(p: Profile, raw: Seq<u8>) -> Option<Seq<u8>> {
    match p {
        Profile::H264High => avc_private(units(raw, 0)),
        Profile::HevcMain => hevc_private(units(raw, 0)),
        Profile::Av1Main => av1_private(obus(raw, 0)),
    }
}

/// The stream with the code of one more picture.
pub open spec fn absorbed(v: VaView, raw: Seq<u8>) -> VaView {
    VaView {
        sizes: v.sizes.push(wrap32(va_sample(v.profile, raw).len() as int) as u32),
        keyframes: v.keyframes.push(true),
        codec_private: private_after(
            v.codec_private,
            v.sizes.len() == 0,
            va_private(v.profile, raw),
        ),
        ..v
    }
}

/// Whether the parameter set in the code of a first picture is long enough to be read.
pub open spec fn readable(p: Profile, raw: Seq<u8>) -> bool {
    p == Profile::H264High ==> (last_avc(units(raw, 0), 7) matches Some(sps) ==> sps.len() >= 4)
}

/// Finds whether the parameter set in the code of a first picture is long enough to be read.
pub fn is_readable(p: Profile, raw: &[u8]) -> (r: bool)
    ensures
        r == readable(p, raw@),
{
    match p {
        Profile::H264High => {
            let nals = split_annexb(raw);
            match find_last_avc(&nals, 7) {
                Some(k) => nals[k].len() >= 4,
                None => true,
            }
        },
        _ => true,
    }
}

impl LibvaStream {
    /// Opens a stream of pictures of the given size. `has_device` tells whether the render node
    /// is there.
    pub fn new(codec: Codec, w: usize, h: usize, fps: u32, has_device: bool) -> (r: Result<
        LibvaStream,
        CandyError,
    >)
        ensures
            match r {
                Ok(s) => has_device && profile_of(codec) == Some(s@.profile) && s@ == (VaView {
                    profile: s@.profile,
                    w: wrap32(w as int) as u32,
                    h: wrap32(h as int) as u32,
                    fps,
                    announced: false,
                    sizes: Seq::empty(),
                    keyframes: Seq::empty(),
                    codec_private: Seq::empty(),
                }),
                Err(e) => if !has_device {
                    e@ == ErrorView::Libva(
                        "libva not available: /dev/dri/renderD128 not found. Install libva + a VAAPI-capable GPU driver (e.g. intel-media-va-driver-non-free)."@,
                    )
                } else {
                    profile_of(codec) is None && e@ == ErrorView::Libva(
                        "codec "@ + codec_name(codec) + " is not a direct-libva codec"@,
                    )
                },
            },
    {
        match find_profile(codec, has_device) {
            Err(e) => Err(e),
            Ok(profile) => {
                let s = LibvaStream {
                    profile,
                    w: low32(w),
                    h: low32(h),
                    fps,
                    announced: false,
                    sizes: Vec::new(),
                    keyframes: Vec::new(),
                    codec_private: Vec::new(),
                };
                Ok(s)
            },
        }
    }

    /// Tells what the driver is handed for the next picture.
    pub fn request(&mut self, surface: u32, coded_buf: u32) -> (r: Request)
        requires
            describable(old(self)@.w, old(self)@.h),
        ensures
            r == request_of(old(self)@, surface, coded_buf),
            final(self)@ == (VaView { announced: true, ..old(self)@ }),
    {
        let stream = if self.announced {
            None
        } else {
            Some((make_sequence(self.profile, self.w, self.h), make_rate_control(), self.fps))
        };
        let picture = make_picture(self.profile, self.w, self.h, surface, coded_buf, true);
        let slice = make_slice(self.profile, self.w, self.h, self.sizes.len(), true);
        self.announced = true;
        Request { stream, picture, slice }
    }

    /// Takes in what the driver made of a picture. The result is its sample.
    pub fn absorb(&mut self, raw: &[u8]) -> (r: Vec<u8>)
        requires
            old(self)@.sizes.len() == 0 ==> readable(old(self)@.profile, raw@),
        ensures
            r@ == va_sample(old(self)@.profile, raw@),
            final(self)@ == absorbed(old(self)@, raw@),
    {
        let first = self.sizes.len() == 0;
        let sample = match self.profile {
            Profile::H264High => process_h264(raw, &mut self.codec_private, first),
            Profile::HevcMain => process_hevc(raw, &mut self.codec_private, first),
            Profile::Av1Main => process_av1(raw, &mut self.codec_private, first),
        };
        self.sizes.push(low32(sample.len()));
        self.keyframes.push(true);
        assert(self@ =~= absorbed(old(self)@, raw@));
        sample
    }

    /// Ends the stream. Its samples lie in the file at `samples_path`.
    pub fn finish_file(self, samples_path: String) -> (r: Result<EncodedVideoFile, CandyError>)
        ensures
            if self@.sizes.len() == 0 {
                r matches Err(e) && e@ == ErrorView::Libva("no frames were encoded"@)
            } else if self@.codec_private.len() == 0 {
                r matches Err(e) && e@ == ErrorView::Libva(
                    "libva encode produced no codec-private data (sequence header missing)"@,
                )
            } else {
                r matches Ok(f) && f.width == self@.w && f.height == self@.h && f.fps == self@.fps
                    && f.is_av1 == (self@.profile == Profile::Av1Main) && f.is_hevc == (self@.profile
                    == Profile::HevcMain) && f.samples_path@
                    == samples_path@ && f.sample_sizes@ == self@.sizes && f.codec_private@
                    == self@.codec_private && f.keyframes@ == self@.keyframes
            },
    {
        if self.sizes.len() == 0 {
            return Err(CandyError::Libva("no frames were encoded".to_owned()));
        }
        if self.codec_private.len() == 0 {
            return Err(
                CandyError::Libva(
                    "libva encode produced no codec-private data (sequence header missing)".to_owned(),
                ),
            );
        }
        let (is_av1, is_hevc) = match self.profile {
            Profile::Av1Main => (true, false),
            Profile::HevcMain => (false, true),
            Profile::H264High => (false, false),
        };
        Ok(
            EncodedVideoFile {
                width: self.w,
                height: self.h,
                fps: self.fps,
                is_av1,
                is_hevc,
                samples_path,
                sample_sizes: self.sizes,
                codec_private: self.codec_private,
                keyframes: self.keyframes,
            },
        )
    }
}

// ---------------------------------------------------------------- laws

/// The stream after a number of pictures.
pub open spec fn absorbed_all(v: VaView, raws: Seq<Seq<u8>>) -> VaView
    decreases raws.len(),
{
    if raws.len() == 0 {
        v
    } else {
        absorbed(absorbed_all(v, raws.drop_last()), raws.last())
    }
}

/// Each picture gives one sample, which is a key frame and has the length that is kept of it; the
/// first picture alone gives the decoder configuration.
pub proof fn law_every_picture_is_a_key_frame(v: VaView, raws: Seq<Seq<u8>>)
    requires
        v.sizes.len() == 0,
        v.keyframes.len() == 0,
        v.codec_private.len() == 0,
    ensures
        ({
            let x = absorbed_all(v, raws);
            &&& x.sizes.len() == raws.len()
            &&& x.keyframes == Seq::new(raws.len(), |i: int| true)
            &&& forall|i: int|
                0 <= i < raws.len() ==> #[trigger] x.sizes[i] == wrap32(
                    va_sample(v.profile, raws[i]).len() as int,
                )
            &&& raws.len() > 0 ==> x.codec_private == private_after(
                Seq::empty(),
                true,
                va_private(v.profile, raws[0]),
            )
            &&& x.profile == v.profile && x.w == v.w && x.h == v.h && x.fps == v.fps
        }),
    decreases raws.len(),
{
    let x = absorbed_all(v, raws);
    if raws.len() > 0 {
        let t = raws.drop_last();
        law_every_picture_is_a_key_frame(v, t);
        let y = absorbed_all(v, t);
        assert(x.keyframes =~= Seq::new(raws.len(), |i: int| true));
        assert forall|i: int| 0 <= i < raws.len() implies #[trigger] x.sizes[i] == wrap32(
            va_sample(v.profile, raws[i]).len() as int,
        ) by {
            if i < t.len() {
                assert(x.sizes[i] == y.sizes[i]);
                assert(raws[i] == t[i]);
            }
        }
        if t.len() > 0 {
            assert(raws[0] == t[0]);
        } else {
            assert(v.codec_private =~= Seq::empty());
        }
    } else {
        assert(x.keyframes =~= Seq::new(0, |i: int| true));
    }
}

} // verus!
