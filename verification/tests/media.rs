//! Coding, muxing, images and audio.

use candy::audio::{
    collect_audio, is_malformed, ogg_packets, parse_adts_aac, parse_audio, parse_opus_ogg,
    AudioCodec, AudioData, AudioFault, AudioFrame, LoadedTrack, Pages,
};
use candy::av1::{after_attempt, assemble, Attempt, Av1Stream, Packet, Step};
use candy::bitstream::{
    build_avcc, build_hvcc, first_obu_of_type, parse_av1_obus, process_av1, process_h264,
    process_hevc, read_leb128, split_annexb,
};
use candy::color::{channel_byte, rgba_to_i420_packed, rgba_to_nv12, Channel, Rgb};
use candy::diag::{CandyError, CandyWarn};
use candy::ffmpeg::{
    encode_via_ffmpeg, ffmpeg_args, finish_ffmpeg, finish_ffmpeg_to_file, finish_libva,
    libva_command, pipe_size, read_err_log,
};
use candy::h264::encode;
use candy::images::{write_gif, write_png, write_rgba_draft};
use candy::ebml::{ebml_elem, ebml_vint, f64_to_bytes, u64_to_bytes};
use candy::matroska::{
    cluster_size, file_cluster, matroska_file_header, mux_matroska, plan_clusters,
};
use candy::meta::PrivateMeta;
use candy::mp4::{audio_payload, b, mp4_file_header, mp4_warning, mux_mp4};
use candy::svg::{
    extract_scene_from_svg, find_row_stride, frame_of_drawing, frame_of_rows, is_drawable,
    replace_attr, set_svg_viewport_px,
};
use candy::vaapi::{
    check_entrypoints, coded_size, is_describable, is_readable, va_ok, LibvaStream, Picture,
    Profile, RateControl, Sequence, Slice,
};
use candy::video::{
    compose, encode_frames, mux, route, settle_codec, Av1Outcome, Codec, Container, EncodedVideo,
    EncodedVideoFile, RenderedFrame, Route,
};

fn sample_meta() -> PrivateMeta {
    PrivateMeta::default()
}

fn sample_video() -> EncodedVideo {
    EncodedVideo {
        width: 16,
        height: 16,
        fps: 10,
        is_av1: false,
        is_hevc: false,
        frames: vec![vec![0u8; 16], vec![0u8; 16]],
        codec_private: vec![0u8; 4],
        keyframes: vec![true, false],
    }
}

fn sample_frame() -> RenderedFrame {
    RenderedFrame { width: 4, height: 4, rgba: vec![255u8; 4 * 4 * 4] }
}

fn holds(bytes: &[u8], part: &[u8]) -> bool {
    bytes.windows(part.len()).any(|w| w == part)
}

fn encode_message(e: CandyError) -> String {
    match e {
        CandyError::Encode(m) => m,
        other => panic!("unexpected error {other:?}"),
    }
}

// ---------------------------------------------------------------- containers

#[test]
fn mux_mp4_embeds_private_metadata_in_udta() {
    let v = sample_video();
    let meta = sample_meta();
    let bytes = mux_mp4(&v, None, &meta).unwrap();
    assert!(bytes.windows(4).any(|w| w == b"udta"), "MP4 should contain a udta box");
    assert!(bytes.windows(4).any(|w| w == b"meta"), "MP4 should contain a meta box");
    assert!(
        bytes.windows(4).any(|w| w == [0xA9, 0x63, 0x6D, 0x74]),
        "MP4 should contain a ©cmt entry"
    );
    let expected = format!("\"codename\":\"{}\"", meta.codename);
    assert!(
        bytes.windows(expected.len()).any(|w| w == expected.as_bytes()),
        "MP4 metadata should contain private metadata JSON"
    );
}

#[test]
fn mux_matroska_embeds_private_metadata_in_tags() {
    for webm in [false, true] {
        let v = sample_video();
        let meta = sample_meta();
        let bytes = mux_matroska(&v, None, webm, &meta).unwrap();
        assert!(
            bytes.windows(4).any(|w| w == [0x12, 0x54, 0xC3, 0x67]),
            "Matroska should contain a Tags element"
        );
        assert!(
            bytes.windows(2).any(|w| w == [0x67, 0xC8]),
            "Matroska should contain a SimpleTag element"
        );
        assert!(
            bytes.windows("candy-meta".len()).any(|w| w == b"candy-meta"),
            "Matroska tag should be named candy-meta"
        );
        let expected = format!("\"codename\":\"{}\"", meta.codename);
        assert!(
            bytes.windows(expected.len()).any(|w| w == expected.as_bytes()),
            "Matroska metadata should contain private metadata JSON"
        );
    }
}

#[test]
fn mux_chooses_the_container() {
    let v = sample_video();
    let meta = sample_meta();
    let mp4 = mux(&v, None, Container::Mp4, &meta).unwrap();
    assert_eq!(mp4, mux_mp4(&v, None, &meta).unwrap());
    assert_eq!(&mp4[4..8], b"ftyp");
    let mkv = mux(&v, None, Container::Mkv, &meta).unwrap();
    let webm = mux(&v, None, Container::Webm, &meta).unwrap();
    assert_eq!(&mkv[..4], &[0x1a, 0x45, 0xdf, 0xa3]);
    assert!(holds(&mkv[..40], b"matroska"));
    assert!(holds(&webm[..40], b"webm"));
}

#[test]
fn an_empty_video_is_not_muxed() {
    let v = EncodedVideo { frames: Vec::new(), keyframes: Vec::new(), ..sample_video() };
    for c in [Container::Mp4, Container::Mkv] {
        let e = mux(&v, None, c, &sample_meta()).unwrap_err();
        assert_eq!(e.code(), "E007");
        assert_eq!(encode_message(e), "cannot mux an empty video (E007)");
    }
}

#[test]
fn samples_lie_at_the_end_of_an_mp4() {
    let mut v = sample_video();
    v.frames = vec![vec![1, 2, 3], vec![4, 5]];
    let bytes = mux_mp4(&v, None, &sample_meta()).unwrap();
    assert!(bytes.ends_with(&[1, 2, 3, 4, 5]));
    let mdat = [0, 0, 0, 13, b'm', b'd', b'a', b't', 1, 2, 3, 4, 5];
    assert!(bytes.ends_with(&mdat));
}

#[test]
fn sync_table_lists_key_frames_only() {
    let mut v = sample_video();
    v.frames = vec![vec![1]; 4];
    v.keyframes = vec![true, false, false, true];
    let bytes = mux_mp4(&v, None, &sample_meta()).unwrap();
    let at = bytes.windows(4).position(|w| w == b"stss").unwrap();
    let entry = &bytes[at + 4..at + 20];
    assert_eq!(entry, &[0, 0, 0, 0, 0, 0, 0, 2, 0, 0, 0, 1, 0, 0, 0, 4]);
}

fn opus_track() -> AudioData {
    AudioData {
        codec: AudioCodec::Opus,
        sample_rate: 48000,
        channels: 2,
        codec_private: b"OpusHead".to_vec(),
        frames: (0..80u64)
            .map(|i| AudioFrame { timestamp_ms: i * 1000, duration_ms: 20, data: vec![i as u8; 3] })
            .collect(),
    }
}

fn aac_track() -> AudioData {
    AudioData {
        codec: AudioCodec::Aac,
        sample_rate: 44100,
        channels: 2,
        codec_private: vec![0x12, 0x10],
        frames: vec![AudioFrame { timestamp_ms: 0, duration_ms: 23, data: vec![9, 8, 7] }],
    }
}

fn on_disk(v: &EncodedVideo) -> EncodedVideoFile {
    EncodedVideoFile {
        width: v.width,
        height: v.height,
        fps: v.fps,
        is_av1: v.is_av1,
        is_hevc: v.is_hevc,
        samples_path: "samples".to_string(),
        sample_sizes: v.frames.iter().map(|f| f.len() as u32).collect(),
        codec_private: v.codec_private.clone(),
        keyframes: v.keyframes.clone(),
    }
}

#[test]
fn files_match_what_is_muxed_in_memory() {
    let meta = sample_meta();
    let mut v = sample_video();
    v.fps = 2;
    v.frames = (0..130u8).map(|i| vec![i; i as usize % 7]).collect();
    v.keyframes = (0..130).map(|i| i % 50 == 0).collect();
    let (opus, aac) = (opus_track(), aac_track());
    let f = on_disk(&v);
    let n = v.frames.len() as u32;
    let plan = plan_clusters(n, v.fps);
    assert_eq!(plan.len(), 3);
    for audio in [None, Some(&opus), Some(&aac)] {
        let mut mkv = matroska_file_header(&f, audio, false, &meta).unwrap();
        for c in &plan {
            let samples = v.frames[c.first..c.end].to_vec();
            let bytes = file_cluster(&f, &samples, audio, c, n);
            assert_eq!(bytes.len() as u64, cluster_size(c, &f.sample_sizes, audio, n, v.fps));
            mkv.extend_from_slice(&bytes);
        }
        assert_eq!(mkv, mux_matroska(&v, audio, false, &meta).unwrap());
        let mut mp4 = mp4_file_header(&f, audio, &meta).unwrap();
        for s in &v.frames {
            mp4.extend_from_slice(s);
        }
        mp4.extend_from_slice(&audio_payload(audio));
        assert_eq!(mp4, mux_mp4(&v, audio, &meta).unwrap());
    }
}

#[test]
fn frames_lie_in_blocks() {
    let mut v = sample_video();
    v.fps = 10;
    v.frames = vec![vec![1, 2, 3], vec![4, 5]];
    let bytes = mux_matroska(&v, None, true, &sample_meta()).unwrap();
    assert!(holds(&bytes, &[0xa3, 0x87, 0x81, 0, 0, 0x80, 1, 2, 3]));
    assert!(holds(&bytes, &[0xa3, 0x86, 0x81, 0, 100, 0, 4, 5]));
}

#[test]
fn clusters_are_short_enough_for_block_times() {
    let plan = plan_clusters(1000, 10);
    assert_eq!((plan[0].first, plan[0].end), (0, 301));
    for w in plan.windows(2) {
        assert_eq!(w[0].end, w[1].first);
    }
    for c in &plan {
        assert!((c.end - 1 - c.first) * 100 <= 30_000);
    }
    assert_eq!(plan.last().unwrap().end, 1000);
}

#[test]
fn boxes_and_elements_give_their_sizes() {
    assert_eq!(b(b"free", &[1, 2]), vec![0, 0, 0, 10, b'f', b'r', b'e', b'e', 1, 2]);
    assert_eq!(ebml_vint(0), vec![0x80]);
    assert_eq!(ebml_vint(126), vec![0xfe]);
    assert_eq!(ebml_vint(127), vec![0x40, 0x7f]);
    assert_eq!(ebml_vint(16383), vec![0x7f, 0xff]);
    assert_eq!(ebml_vint(16384), vec![0x20, 0x40, 0x00]);
    assert_eq!(ebml_elem(&[0xec], &[1, 2, 3]), vec![0xec, 0x83, 1, 2, 3]);
    assert_eq!(u64_to_bytes(0), vec![0]);
    assert_eq!(u64_to_bytes(256), vec![1, 0]);
    for n in [0u64, 1, 3, 1000, 44100, 1 << 40, (1 << 53) - 1] {
        assert_eq!(f64_to_bytes(n), (n as f64).to_be_bytes());
    }
}

// ---------------------------------------------------------------- H.264

#[test]
fn h264_reports_real_keyframes_not_all() {
    let n: u32 = 60;
    let frames: Vec<RenderedFrame> = (0..n)
        .map(|_| RenderedFrame { width: 64, height: 64, rgba: vec![255u8; 64 * 64 * 4] })
        .collect();
    let v = encode(&frames, 30).expect("h264 encode");
    assert_eq!(v.keyframes.len(), n as usize, "one flag per frame");
    assert!(v.keyframes[0], "first frame must be a keyframe");
    let kf = v.keyframes.iter().filter(|&&k| k).count();
    assert!(kf >= 1, "at least one keyframe required");
    assert!(
        kf < n as usize,
        "not every frame should be a keyframe (got {kf}/{n}); the MP4/Matroska \
         sync-sample table must not lie about this"
    );
    assert_eq!((v.width, v.height, v.fps, v.is_av1, v.is_hevc), (64, 64, 30, false, false));
    assert_eq!(v.frames.len(), n as usize);
    assert_eq!(v.codec_private[0], 1);
    assert_eq!(&v.codec_private[4..6], &[0xff, 0xe1]);
}

#[test]
fn h264_samples_are_length_prefixed() {
    let frames = vec![RenderedFrame { width: 32, height: 16, rgba: vec![0u8; 32 * 16 * 4] }; 2];
    let v = encode(&frames, 25).unwrap();
    for sample in &v.frames {
        let mut at = 0;
        while at < sample.len() {
            let len = u32::from_be_bytes(sample[at..at + 4].try_into().unwrap()) as usize;
            assert!(len > 0);
            at += 4 + len;
        }
        assert_eq!(at, sample.len());
    }
}

#[test]
fn h264_refuses_what_it_cannot_code() {
    assert_eq!(encode_message(encode(&[], 30).unwrap_err()), "cannot encode an empty animation");
    let f = vec![sample_frame()];
    assert_eq!(encode_message(encode(&f, 0).unwrap_err()), "fps must be >= 1");
    let small = encode_message(encode(&f, 30).unwrap_err());
    assert!(small.starts_with("openh264 encode failed: "), "{small}");
}

#[test]
fn frames_are_coded_on_one_canvas() {
    let frames = vec![
        sample_frame(),
        RenderedFrame { width: 21, height: 7, rgba: vec![9u8; 21 * 7 * 4] },
    ];
    let none = || Av1Outcome::Packets(Vec::new());
    let (v, warn) = encode_frames(&frames, 10, Codec::H264, false, none()).unwrap();
    assert_eq!((v.width, v.height), (22, 16));
    assert!(warn.is_none());
    assert_eq!(v.frames.len(), 2);
    let e = encode_frames(&[], 10, Codec::H264, false, none()).unwrap_err();
    assert_eq!(encode_message(e), "cannot encode an empty animation");
    let e = encode_frames(&frames, 0, Codec::H264, false, none()).unwrap_err();
    assert_eq!(encode_message(e), "fps must be >= 1");
    let e = encode_frames(&frames, 10, Codec::H265, true, none()).unwrap_err();
    assert!(encode_message(e).starts_with("H.265 requires the ffmpeg path"));
    let e = encode_frames(&frames, 10, Codec::H265, false, none()).unwrap_err();
    assert!(encode_message(e).starts_with("HEVC/H.265 encoding is not available"));
    let e = encode_frames(&frames, 10, Codec::X264, true, none()).unwrap_err();
    assert_eq!(
        encode_message(e),
        "codec X264 must use the ffmpeg path (encode_via_ffmpeg), not encode_frames"
    );
}

#[test]
fn av1_falls_back_to_h264_at_the_very_end() {
    let frames = vec![RenderedFrame { width: 16, height: 16, rgba: vec![7u8; 16 * 16 * 4] }];
    let unfinished = Av1Outcome::Unfinished("sample read: gone".to_string());
    let (v, warn) = encode_frames(&frames, 10, Codec::Av1, false, unfinished).unwrap();
    assert!(!v.is_av1);
    match warn {
        Some(CandyWarn::CodecFallback(m)) => assert_eq!(m, "AV1 -> H.264: sample read: gone"),
        other => panic!("unexpected warning {other:?}"),
    }
    let stopped = Av1Outcome::Stopped("rav1e send_frame failed".to_string());
    let e = encode_frames(&frames, 10, Codec::Av1, false, stopped).unwrap_err();
    assert_eq!(encode_message(e), "rav1e send_frame failed");
    let packets = vec![Packet { data: vec![0x0a, 1, 2], key: false }];
    let (v, _) =
        encode_frames(&frames, 10, Codec::Av1, false, Av1Outcome::Packets(packets)).unwrap();
    assert!(v.is_av1);
    assert_eq!((v.width, v.height), (64, 64));
    assert_eq!(v.keyframes, vec![true]);
    assert_eq!(v.codec_private, vec![0x81, 0x01, 0x0a, 1, 2]);
}

#[test]
fn what_is_not_coded_is_not_looked_at() {
    let short = vec![RenderedFrame { width: 1000, height: 1000, rgba: Vec::new() }];
    let run = |frames: &[RenderedFrame], fps: u32, codec: Codec| {
        let none = Av1Outcome::Packets(Vec::new());
        encode_message(encode_frames(frames, fps, codec, false, none).unwrap_err())
    };
    for codec in [Codec::H264, Codec::Av1, Codec::H265, Codec::Vp9] {
        assert_eq!(run(&[], 10, codec), "cannot encode an empty animation");
        assert_eq!(run(&short, 0, codec), "fps must be >= 1");
    }
    assert!(run(&short, 10, Codec::H265).starts_with("HEVC/H.265 encoding is not available"));
    assert_eq!(
        run(&short, 10, Codec::Vp9),
        "codec Vp9 must use the ffmpeg path (encode_via_ffmpeg), not encode_frames"
    );
}

#[test]
fn codecs_know_where_they_run() {
    for c in [Codec::X264, Codec::X265, Codec::H264Vaapi, Codec::Av1Vaapi, Codec::Vp9, Codec::Vp8] {
        assert!(c.uses_ffmpeg());
        assert!(!c.is_self_contained());
        assert_eq!(route(c, 30, false).unwrap(), Route::Ffmpeg);
    }
    for c in [Codec::Av1, Codec::H264, Codec::H265] {
        assert!(!c.uses_ffmpeg());
        assert!(c.is_self_contained());
    }
    assert_eq!(route(Codec::H264, 30, true).unwrap(), Route::H264);
    assert_eq!(route(Codec::Av1, 30, true).unwrap(), Route::Av1);
    assert_eq!(route(Codec::H265, 30, true).unwrap(), Route::Ffmpeg);
    assert!(route(Codec::H265, 30, false).is_err());
    assert_eq!(encode_message(route(Codec::H264, 0, true).unwrap_err()), "fps must be >= 1");
}

#[test]
fn the_canvas_is_white_where_the_frame_ends() {
    let f = RenderedFrame { width: 2, height: 1, rgba: vec![1, 2, 3, 4, 5, 6, 7, 8] };
    let c = compose(&f, 3, 2);
    assert_eq!((c.width, c.height), (3, 2));
    let mut want = vec![1, 2, 3, 4, 5, 6, 7, 8];
    want.extend_from_slice(&[255; 16]);
    assert_eq!(c.rgba, want);
    assert_eq!(compose(&f, 1, 1).rgba, vec![1, 2, 3, 4]);
    assert_eq!(compose(&f, 2, 1).rgba, f.rgba);
}

// ---------------------------------------------------------------- colours

fn luma(r: u8, g: u8, b: u8) -> u8 {
    let (r, g, b) = (r as f32, g as f32, b as f32);
    (0.299 * r + 0.587 * g + 0.114 * b).clamp(0.0, 255.0) as u8
}

fn blue(r: u8, g: u8, b: u8) -> u8 {
    let (r, g, b) = (r as f32, g as f32, b as f32);
    (-0.169 * r - 0.331 * g + 0.5 * b + 128.0).clamp(0.0, 255.0) as u8
}

fn red(r: u8, g: u8, b: u8) -> u8 {
    let (r, g, b) = (r as f32, g as f32, b as f32);
    (0.5 * r - 0.419 * g - 0.081 * b + 128.0).clamp(0.0, 255.0) as u8
}

fn studio(r: u8, g: u8, b: u8) -> (u8, u8, u8) {
    let (r, g, b) = (r as f32, g as f32, b as f32);
    (
        (0.257 * r + 0.504 * g + 0.098 * b + 16.0).clamp(0.0, 255.0) as u8,
        (-0.148 * r - 0.291 * g + 0.439 * b + 128.0).clamp(0.0, 255.0) as u8,
        (0.439 * r - 0.368 * g - 0.071 * b + 128.0).clamp(0.0, 255.0) as u8,
    )
}

#[test]
fn channels_are_those_of_single_precision() {
    for i in 0..64u32 {
        for j in 0..64u32 {
            for k in 0..16u32 {
                let (r, g, b) = ((i * 4 + j % 4) as u8, (j * 4 + k % 4) as u8, (k * 17) as u8);
                let c = Rgb { r, g, b };
                assert_eq!(channel_byte(Channel::Luma, c), luma(r, g, b), "{r} {g} {b}");
                assert_eq!(channel_byte(Channel::Blue, c), blue(r, g, b), "{r} {g} {b}");
                assert_eq!(channel_byte(Channel::Red, c), red(r, g, b), "{r} {g} {b}");
                let s = (
                    channel_byte(Channel::StudioLuma, c),
                    channel_byte(Channel::StudioBlue, c),
                    channel_byte(Channel::StudioRed, c),
                );
                assert_eq!(s, studio(r, g, b), "{r} {g} {b}");
            }
        }
    }
}

#[test]
fn whole_sums_are_rounded_as_in_single_precision() {
    let mut below = 0;
    for r in 0..=255u8 {
        for g in 0..=255u8 {
            for b in 0..=255u8 {
                let n = 299 * r as u32 + 587 * g as u32 + 114 * b as u32;
                if n % 1000 == 0 {
                    let y = channel_byte(Channel::Luma, Rgb { r, g, b });
                    assert_eq!(y, luma(r, g, b));
                    if (y as u32) < n / 1000 {
                        below += 1;
                    }
                }
            }
        }
    }
    assert_eq!(below, 836);
}

#[test]
fn planes_cover_the_frame() {
    let mut rgba = Vec::new();
    for i in 0..8u8 {
        rgba.extend_from_slice(&[i * 30, 255 - i * 20, i * 7, 255]);
    }
    let f = RenderedFrame { width: 4, height: 2, rgba: rgba.clone() };
    let px = |i: usize| (rgba[i * 4], rgba[i * 4 + 1], rgba[i * 4 + 2]);
    let yuv = rgba_to_i420_packed(&f, 6, 2);
    assert_eq!(yuv.len(), 12 + 3 + 3);
    for y in 0..2 {
        for x in 0..4 {
            let (r, g, b) = px(y * 4 + x);
            assert_eq!(yuv[y * 6 + x], luma(r, g, b));
        }
        assert_eq!(&yuv[y * 6 + 4..y * 6 + 6], &[0, 0]);
    }
    let (r, g, b) = px(2);
    assert_eq!(yuv[12 + 1], blue(r, g, b));
    let (r, g, b) = px(3);
    assert_eq!(yuv[15 + 1], red(r, g, b));
    assert_eq!((yuv[14], yuv[17]), (0, 0));

    let nv = rgba_to_nv12(&f);
    assert_eq!(nv.len(), 12);
    let (r, g, b) = px(5);
    assert_eq!(nv[5], studio(r, g, b).0);
    let (r, g, b) = px(2);
    assert_eq!((nv[10], nv[11]), (studio(r, g, b).1, studio(r, g, b).2));
}

// ---------------------------------------------------------------- bitstreams

#[test]
fn annexb_is_split_at_start_codes() {
    let d = [0, 0, 0, 1, 0x67, 1, 2, 0, 0, 1, 0x68, 3, 0, 0, 0, 1, 0x65, 9, 9, 7, 7];
    let units = split_annexb(&d);
    assert_eq!(units, vec![vec![0x67, 1, 2], vec![0x68, 3], vec![0x65, 9, 9, 7, 7]]);
    assert_eq!(split_annexb(&[0, 0, 1, 5]), vec![vec![5]]);
    assert!(split_annexb(&[]).is_empty());
    assert!(split_annexb(&[1, 2, 3]).is_empty());
}

#[test]
fn parameter_sets_make_up_configurations() {
    assert_eq!(
        build_avcc(&vec![0x67, 0x42, 0xc0, 0x1f], &vec![0x68, 0xce]),
        vec![1, 0x42, 0xc0, 0x1f, 0xff, 0xe1, 0, 4, 0x67, 0x42, 0xc0, 0x1f, 1, 0, 2, 0x68, 0xce]
    );
    let h = build_hvcc(&vec![0x40], &vec![0x42, 1, 0x21, 0, 0, 0, 0, 0, 93], &vec![0x44]);
    assert_eq!(h[..2], [1, 0x21]);
    assert_eq!(h[11], 93);
    assert_eq!(h[20..28], [0x0f, 3, 0x20, 0, 1, 0, 1, 0x40]);
    assert_eq!(h[h.len() - 6..], [0x22, 0, 1, 0, 1, 0x44]);
}

#[test]
fn coded_frames_become_samples() {
    let raw = [
        0, 0, 0, 1, 0x67, 0x42, 0xc0, 0x1f, 0, 0, 0, 1, 0x68, 0xce, 0, 0, 0, 1, 0x65, 5, 5, 5,
    ];
    let mut private = Vec::new();
    let sample = process_h264(&raw, &mut private, true);
    assert_eq!(
        sample,
        vec![
            0, 0, 0, 4, 0x67, 0x42, 0xc0, 0x1f, 0, 0, 0, 2, 0x68, 0xce, 0, 0, 0, 4, 0x65, 5, 5, 5
        ]
    );
    assert_eq!(private[..4], [1, 0x42, 0xc0, 0x1f]);
    let kept = private.clone();
    process_h264(&raw, &mut private, false);
    assert_eq!(private, kept);

    let raw = [0, 0, 1, 0x40, 1, 0, 0, 1, 0x42, 2, 0, 0, 1, 0x44, 3, 0, 0, 1, 0x26, 4, 0, 0];
    let mut private = Vec::new();
    let sample = process_hevc(&raw, &mut private, true);
    assert_eq!(sample[..6], [0, 0, 0, 2, 0x40, 1]);
    assert_eq!(private[0], 1);
    assert_eq!(private.len(), 22 + 3 * 7);
}

#[test]
fn obus_survive_being_made_a_sample() {
    let mut raw = vec![0x12, 0x00, 0x0a, 3, 0x40, 1, 9];
    raw.extend_from_slice(&[0x32, 0x82, 0x01]);
    raw.extend_from_slice(&[7; 130]);
    let mut private = Vec::new();
    let sample = process_av1(&raw, &mut private, true);
    assert_eq!(private, vec![0x81, 0x40, 0x8c, 0]);
    let before = parse_av1_obus(&raw);
    assert_eq!(before.len(), 3);
    let after = parse_av1_obus(&sample);
    assert_eq!(after.len(), 2);
    for (a, b) in before[1..].iter().zip(&after) {
        assert_eq!((a.kind, &a.payload), (b.kind, &b.payload));
    }
    assert_eq!(sample, raw[2..]);
}

#[test]
fn leb128_is_read_to_its_last_byte() {
    assert_eq!(read_leb128(&[0x05], 0), Some((5, 1)));
    assert_eq!(read_leb128(&[9, 0xe5, 0x8e, 0x26, 1], 1), Some((624485, 3)));
    assert_eq!(read_leb128(&[0x80], 0), Some((0, 1)));
    assert_eq!(read_leb128(&[], 0), Some((0, 0)));
    let mut max = vec![0xff; 9];
    max.push(1);
    assert_eq!(read_leb128(&max, 0), Some((u64::MAX, 10)));
    assert_eq!(read_leb128(&[0xff; 12], 0), None);
}

#[test]
fn av1_streams_keep_the_first_sequence_header() {
    let mut s = Av1Stream::new(65, 10, 24).unwrap();
    assert_eq!((s.width(), s.height()), (128, 64));
    let unit = [0x0a, 2, 1, 2, 0x32, 1, 9];
    assert_eq!(first_obu_of_type(&unit, 1), Some(unit[..4].to_vec()));
    s.capture(&unit, false);
    s.capture(&[0x0a, 1, 9], true);
    let v = s.finish(vec![unit.to_vec(), vec![1]]);
    assert_eq!(v.keyframes, vec![true, true]);
    assert_eq!(v.codec_private[..2], [0x81, 0x01]);
    assert_eq!(v.codec_private[v.codec_private.len() - 4..], unit[..4]);
    assert!(Av1Stream::new(1, 1, 0).is_err());
    assert!(assemble(1, 1, 0, Vec::new()).is_err());
}

#[test]
fn the_first_obu_of_a_type_is_found() {
    let unit = [0x12, 0x00, 0x0a, 0x02, 0xaa, 0xbb, 0x32, 0x01, 0xcc];
    assert_eq!(first_obu_of_type(&unit, 1), Some(vec![0x0a, 0x02, 0xaa, 0xbb]));
    assert_eq!(first_obu_of_type(&unit, 6), Some(vec![0x32, 0x01, 0xcc]));
    assert_eq!(first_obu_of_type(&unit, 2), Some(vec![0x12, 0x00]));
    assert_eq!(first_obu_of_type(&unit, 5), None);
    // One with an extension byte, and one without a size, which reaches to the end.
    let unit = [0x0e, 0x10, 0x01, 0xaa, 0x30, 7, 8, 9];
    assert_eq!(first_obu_of_type(&unit, 1), Some(vec![0x0e, 0x10, 0x01, 0xaa]));
    assert_eq!(first_obu_of_type(&unit, 6), Some(vec![0x30, 7, 8, 9]));
}

#[test]
fn av1_is_tried_twice() {
    match after_attempt(8, 8, 10, false, Attempt::Aborted) {
        Step::Retry(w) => assert!(matches!(w, CandyWarn::EncodeRetry)),
        other => panic!("unexpected step {other:?}"),
    }
    match after_attempt(8, 8, 10, true, Attempt::Aborted) {
        Step::Done(Err(e)) => assert!(encode_message(e).starts_with("rav1e aborted")),
        other => panic!("unexpected step {other:?}"),
    }
    match after_attempt(8, 8, 10, false, Attempt::Failed("bad".to_string())) {
        Step::Done(Err(e)) => assert_eq!(encode_message(e), "bad"),
        other => panic!("unexpected step {other:?}"),
    }
    let p = vec![Packet { data: vec![1, 2], key: true }, Packet { data: vec![3], key: false }];
    match after_attempt(8, 8, 10, false, Attempt::Packets(p)) {
        Step::Done(Ok(v)) => {
            assert_eq!(v.frames, vec![vec![1, 2], vec![3]]);
            assert_eq!(v.keyframes, vec![true, false]);
        }
        other => panic!("unexpected step {other:?}"),
    }
}

// ---------------------------------------------------------------- images

#[test]
fn write_gif_embeds_private_metadata_comment_extension() {
    let meta = sample_meta();
    let bytes = write_gif(&[sample_frame()], 10, &meta).unwrap();
    assert!(
        bytes.windows(2).any(|w| w == [0x21, 0xFE]),
        "GIF should contain a comment extension (0x21 0xFE)"
    );
    let expected = format!("\"codename\":\"{}\"", meta.codename);
    assert!(
        holds(&bytes, expected.as_bytes()),
        "GIF comment extension should contain private metadata JSON"
    );
    assert_eq!(&bytes[..6], b"GIF89a");
    assert_eq!(bytes[6..10], [16, 0, 16, 0]);
    let json = meta.to_json();
    let mut comment = vec![0x21, 0xfe, json.len() as u8];
    comment.extend_from_slice(json.as_bytes());
    comment.push(0);
    assert!(holds(&bytes, &comment));
    assert!(holds(&bytes, &[0x21, 0xf9, 4]));
    let control = bytes.windows(3).position(|w| w == [0x21, 0xf9, 4]).unwrap();
    assert_eq!(bytes[control + 4..control + 6], [10, 0]);
}

#[test]
fn gif_refuses_what_it_cannot_write() {
    let e = write_gif(&[], 10, &sample_meta()).unwrap_err();
    assert_eq!(encode_message(e), "cannot write an empty GIF");
    let e = write_gif(&[sample_frame()], 0, &sample_meta()).unwrap_err();
    assert_eq!(encode_message(e), "fps must be >= 1");
}

#[test]
fn a_long_comment_is_cut_into_blocks() {
    let mut meta = sample_meta();
    meta.secret = "s".repeat(400);
    let json = meta.to_json();
    let bytes = write_gif(&[sample_frame()], 1000, &meta).unwrap();
    let mut comment = vec![0x21, 0xfe, 255];
    comment.extend_from_slice(&json.as_bytes()[..255]);
    comment.push((json.len() - 255) as u8);
    comment.extend_from_slice(&json.as_bytes()[255..]);
    comment.push(0);
    assert!(holds(&bytes, &comment));
}

#[test]
fn write_png_embeds_private_metadata_text_chunk() {
    let meta = sample_meta();
    let bytes = write_png(&sample_frame(), &meta).unwrap();
    assert!(holds(&bytes, b"candy-meta"), "PNG should contain a candy-meta tEXt chunk");
    let expected = format!("\"codename\":\"{}\"", meta.codename);
    assert!(
        holds(&bytes, expected.as_bytes()),
        "PNG tEXt chunk should contain private metadata JSON"
    );
    let mut note = b"tEXtcandy-meta\0".to_vec();
    note.extend_from_slice(meta.to_json().as_bytes());
    assert!(holds(&bytes, &note));
    assert_eq!(&bytes[1..4], b"PNG");
}

#[test]
fn png_refuses_what_it_cannot_write() {
    let empty = RenderedFrame { width: 0, height: 1, rgba: Vec::new() };
    let e = encode_message(write_png(&empty, &sample_meta()).unwrap_err());
    assert!(e.starts_with("png header encode failed: "), "{e}");
    let mut meta = sample_meta();
    meta.secret = "名".to_string();
    let e = encode_message(write_png(&sample_frame(), &meta).unwrap_err());
    assert!(e.starts_with("png text chunk failed: "), "{e}");
    let short = RenderedFrame { width: 2, height: 1, rgba: vec![0; 4] };
    let e = encode_message(write_png(&short, &sample_meta()).unwrap_err());
    assert!(e.starts_with("png data encode failed: "), "{e}");
}

#[test]
fn a_draft_holds_the_pixels() {
    let f = RenderedFrame { width: 1, height: 2, rgba: vec![1, 2, 3, 4, 5, 6, 7, 8] };
    let bytes = write_rgba_draft(&[f]).unwrap();
    assert_eq!(bytes, vec![1, 0, 0, 0, 1, 0, 0, 0, 2, 0, 0, 0, 1, 2, 3, 4, 5, 6, 7, 8]);
    let e = write_rgba_draft(&[]).unwrap_err();
    assert_eq!(encode_message(e), "cannot write an empty RGBA draft (no frames were produced)");
}

#[test]
fn metadata_is_quoted() {
    let mut meta = sample_meta();
    meta.secret = "a\"b\\c\n".to_string();
    let json = meta.to_json();
    assert!(json.contains(r#""secret":"a\"b\\c\n""#), "{json}");
    assert!(json.contains(&format!("\"version\":\"{}\"", meta.version)), "{json}");
}

// ---------------------------------------------------------------- SVG

#[test]
fn set_svg_viewport_px_rescales_root_only() {
    let svg = "<svg xmlns=\"http://www.w3.org/2000/svg\" width=\"453.543\" \
               height=\"255.118\" viewBox=\"0 0 453.543 255.118\" \
               xmlns:xlink=\"http://www.w3.org/1999/xlink\">\n\
               <rect width=\"453.543\" height=\"255.118\" fill=\"white\"/>\n\
               </svg>";
    let out = set_svg_viewport_px(svg, 1360, 765);
    assert!(out.contains("width=\"1360\""), "root width not rewritten: {out}");
    assert!(out.contains("height=\"765\""), "root height not rewritten: {out}");
    assert!(
        out.contains("viewBox=\"0 0 453.543 255.118\""),
        "viewBox must be preserved: {out}"
    );
    assert!(
        out.contains("<rect width=\"453.543\" height=\"255.118\""),
        "child attributes must be untouched: {out}"
    );
}

#[test]
fn attributes_are_replaced_once() {
    assert_eq!(replace_attr("<a width=\"1\" width=\"2\"/>", "width", 30), "<a width=\"30\" width=\"2\"/>");
    assert_eq!(replace_attr("<a/>", "width", 30), "<a/>");
    assert_eq!(replace_attr("<a width=\"1", "width", 30), "<a width=\"1");
    assert_eq!(set_svg_viewport_px("no root", 1, 2), "no root");
    assert_eq!(set_svg_viewport_px("<svg width=\"1\"", 1, 2), "<svg width=\"1\"");
}

#[test]
fn a_viewport_can_be_set_again() {
    let svg = "<svg viewBox=\"0 0 1 1\" height=\"3\" width=\"4\"><rect width=\"4\"/></svg>";
    let once = set_svg_viewport_px(svg, 10, 20);
    assert_eq!(
        once,
        "<svg viewBox=\"0 0 1 1\" height=\"20\" width=\"10\"><rect width=\"4\"/></svg>"
    );
    assert_eq!(set_svg_viewport_px(&once, 7, 8), set_svg_viewport_px(svg, 7, 8));
}

#[test]
fn candy_blocks_are_found() {
    let svg = "<svg><text>other</text><text x=\"1\" lang=\"candy-json\">{\"a\":1}</text></svg>";
    assert_eq!(extract_scene_from_svg(svg).unwrap(), "{\"a\":1}");
    let message = |s: &str| {
        let e = extract_scene_from_svg(s).unwrap_err();
        assert_eq!(e.code(), "E003");
        match e {
            CandyError::Svg(m) => m,
            other => panic!("unexpected error {other:?}"),
        }
    };
    assert_eq!(message("<svg/>"), "no candy-json block found");
    assert_eq!(message("<g lang=\"candy-json\">"), "candy-json not inside a <text>");
    assert_eq!(message("<text lang=\"candy-json\""), "malformed <text>");
    assert_eq!(message("<text lang=\"candy-json\">{}"), "unterminated <text>");
}

fn drawn(svg: &str, width: u32, height: u32) -> Result<RenderedFrame, CandyError> {
    let text = set_svg_viewport_px(svg, width, height);
    let tree = usvg::Tree::from_str(&text, &usvg::Options::default());
    let pixels = tree.as_ref().ok().and_then(|tree| {
        let mut pixmap = tiny_skia::Pixmap::new(width, height)?;
        resvg::render(tree, tiny_skia::Transform::identity(), &mut pixmap.as_mut());
        Some(pixmap.take())
    });
    let parsed = tree.map(|_| ()).map_err(|e| e.to_string());
    frame_of_drawing(parsed, pixels, width, height)
}

#[test]
fn svg_is_drawn_at_the_size_asked_for() {
    let svg = "<svg xmlns=\"http://www.w3.org/2000/svg\" width=\"2\" height=\"1\" viewBox=\"0 0 2 1\"><rect x=\"1\" width=\"1\" height=\"1\" fill=\"#ff0000\"/></svg>";
    let f = drawn(svg, 8, 4).unwrap();
    assert_eq!((f.width, f.height), (8, 4));
    assert_eq!(f.rgba.len(), 8 * 4 * 4);
    assert_eq!(f.rgba[0..4], [0, 0, 0, 0]);
    assert_eq!(f.rgba[6 * 4..7 * 4], [255, 0, 0, 255]);
    let e = encode_message(drawn("<svg", 8, 4).unwrap_err());
    assert!(e.starts_with("usvg parse: "), "{e}");
    let empty = "<svg xmlns=\"http://www.w3.org/2000/svg\"/>";
    assert_eq!(encode_message(drawn(empty, 0, 4).unwrap_err()), "failed to allocate pixmap");
}

#[test]
fn drawings_become_frames() {
    let f = frame_of_drawing(Ok(()), Some(vec![1, 2, 3, 4, 5, 6, 7, 8]), 2, 1).unwrap();
    assert_eq!((f.width, f.height, f.rgba), (2, 1, vec![1, 2, 3, 4, 5, 6, 7, 8]));
    let e = frame_of_drawing(Err("no root".to_string()), Some(Vec::new()), 2, 1).unwrap_err();
    assert_eq!(encode_message(e), "usvg parse: no root");
    let e = frame_of_drawing(Ok(()), None, 2, 1).unwrap_err();
    assert_eq!(encode_message(e), "failed to allocate pixmap");
    assert!(is_drawable(1, 1));
    assert!(is_drawable(0x1fff_ffff, u32::MAX));
    for (w, h) in [(0, 1), (1, 0), (0x2000_0000, 1)] {
        assert!(!is_drawable(w, h));
        assert!(tiny_skia::Pixmap::new(w, h).is_none());
    }
}

// ---------------------------------------------------------------- audio

/// An LC frame at 44100 Hz in two channels.
fn adts(payload: &[u8]) -> Vec<u8> {
    let n = payload.len() + 7;
    let (b3, b4, b5) = (0x80 | (n >> 11) as u8, (n >> 3) as u8, ((n & 7) << 5) as u8 | 0x1f);
    let mut v = vec![0xff, 0xf1, 0x50, b3, b4, b5, 0xfc];
    v.extend_from_slice(payload);
    v
}

#[test]
fn adts_frames_are_found() {
    let mut file = adts(&[7; 2685]);
    file.extend_from_slice(&adts(&[8, 9]));
    assert!(!is_malformed(&file));
    let d = parse_audio("a.aac", &file, None, false).unwrap();
    assert_eq!(d.codec, AudioCodec::Aac);
    assert_eq!((d.sample_rate, d.channels), (44100, 2));
    assert_eq!(d.codec_private, vec![0x12, 0x10]);
    assert_eq!(d.frames.len(), 2);
    assert_eq!(d.frames[0].data, vec![7; 2685]);
    assert_eq!(d.frames[1].timestamp_ms, 23);
    assert_eq!(d.frames[1].data, vec![8, 9]);
    assert_eq!(d.end_ms(), 46);
    let twice = parse_audio("a.aac", &file, None, true).unwrap();
    assert_eq!(twice.frames.len(), 4);
    assert_eq!(twice.frames[2].timestamp_ms, 46);
    let part = parse_audio("a.aac", &file, Some((23, 100)), false).unwrap();
    assert_eq!(part.frames.len(), 1);
    assert_eq!(part.frames[0].timestamp_ms, 0);
}

#[test]
fn the_length_of_an_adts_frame_is_read_from_its_header() {
    let file = [0xff, 0xf1, 0x50, 0x80, 0x01, 0x3f, 0xfc, 0xde, 0xad];
    assert_eq!(adts(&[0xde, 0xad]), file);
    let d = parse_adts_aac(&file).unwrap();
    assert_eq!((d.codec, d.sample_rate, d.channels), (AudioCodec::Aac, 44100, 2));
    assert_eq!(d.codec_private, vec![0x12, 0x10]);
    assert_eq!(d.frames.len(), 1);
    assert_eq!((d.frames[0].timestamp_ms, d.frames[0].duration_ms), (0, 23));
    assert_eq!(d.frames[0].data, vec![0xde, 0xad]);
}

fn ogg_page(segments: &[u8], data: &[u8], continued: bool) -> Vec<u8> {
    let mut v = b"OggS".to_vec();
    v.push(0);
    v.push(continued as u8);
    v.resize(26, 0);
    v.push(segments.len() as u8);
    v.extend_from_slice(segments);
    v.extend_from_slice(data);
    v
}

#[test]
fn opus_needs_its_header() {
    let mut file = ogg_page(&[10], b"opusHead\x01\x02", false);
    file.extend_from_slice(b"OpusHead");
    let e = encode_message(parse_audio("a.opus", &file, None, false).unwrap_err());
    assert_eq!(e, "Ogg/Opus: bad OpusHead (E007)");
    let file = ogg_page(&[], b"OpusHead padding padding", false);
    let e = encode_message(parse_audio("a.opus", &file, None, false).unwrap_err());
    assert_eq!(e, "Ogg/Opus: missing OpusHead (E007)");
    let e = encode_message(parse_audio("a.wav", b"RIFF", None, false).unwrap_err());
    assert!(e.starts_with("unsupported audio format for 'a.wav' (E007)"));
    let e = encode_message(parse_audio("a.aac", &[0xff, 0xf1, 0, 0], None, false).unwrap_err());
    assert_eq!(e, "ADTS AAC: no frames found (E007)");
    let mut short = ogg_page(&[255], b"OpusHead padding padding", false);
    short.extend_from_slice(b"more");
    let e = encode_message(parse_audio("a.ogg", &short, None, false).unwrap_err());
    assert_eq!(e, "Ogg: truncated segment (E007)");
    let mut cut = ogg_page(&[10], b"OpusHead\x01\x02", false);
    cut.extend_from_slice(b"OggS");
    cut.extend_from_slice(&[0; 22]);
    assert!(is_malformed(&cut));
    let nine = ogg_page(&[9], b"OpusHead\x01", false);
    assert_eq!(parse_opus_ogg(&nine).unwrap_err(), AudioFault::Malformed);
}

fn opus_file() -> Vec<u8> {
    let mut file = ogg_page(&[20], b"OpusHead\x01\x02 the rest.", false);
    file.extend_from_slice(&ogg_page(&[8], b"OpusTags", false));
    file.extend_from_slice(&ogg_page(&[4, 3], &[4, 1, 2, 3, 3, 5, 6], false));
    file
}

#[test]
fn opus_packets_follow_each_other() {
    let file = opus_file();
    assert!(!is_malformed(&file));
    let d = parse_audio("a.opus", &file, None, false).unwrap();
    assert_eq!((d.codec, d.sample_rate, d.channels), (AudioCodec::Opus, 48000, 2));
    assert_eq!(d.codec_private, b"OpusHead\x01\x02 the rest.".to_vec());
    let packets: Vec<(u64, u64, Vec<u8>)> =
        d.frames.into_iter().map(|f| (f.timestamp_ms, f.duration_ms, f.data)).collect();
    assert_eq!(packets, vec![(0, 20, vec![4, 1, 2, 3]), (20, 20, vec![3, 5, 6])]);
    let d = parse_audio("a.opus", &file, None, true).unwrap();
    let times: Vec<u64> = d.frames.iter().map(|f| f.timestamp_ms).collect();
    assert_eq!(times, vec![0, 20, 40, 60]);
}

fn packets_of(b: &[u8]) -> Vec<Vec<u8>> {
    match ogg_packets(b) {
        Pages::Packets(p) => p,
        other => panic!("unexpected pages {other:?}"),
    }
}

#[test]
fn packets_are_laced_into_pages() {
    let mut page = b"OggS".to_vec();
    page.extend_from_slice(&[0; 22]);
    page.extend_from_slice(&[1, 3]);
    page.extend_from_slice(b"abc");
    assert_eq!(packets_of(&page), vec![b"abc".to_vec()]);

    // Three packets in one page: of 300 bytes, of none, and of two.
    let mut data = vec![1; 300];
    data.extend_from_slice(&[2, 2]);
    let page = ogg_page(&[255, 45, 0, 2], &data, false);
    assert_eq!(packets_of(&page), vec![vec![1; 300], Vec::new(), vec![2, 2]]);

    // A packet that goes on in the next page, with another one behind it.
    let mut pages = ogg_page(&[1, 255], &[9; 256], false);
    pages.extend_from_slice(&ogg_page(&[2, 1], &[8, 8, 7], true));
    let mut long = vec![9; 255];
    long.extend_from_slice(&[8, 8]);
    assert_eq!(packets_of(&pages), vec![vec![9], long, vec![7]]);
}

#[test]
fn the_codec_of_the_first_track_counts() {
    let track = |path: &str, bytes: Vec<u8>| LoadedTrack {
        path: path.to_string(),
        start_ms: 0,
        bytes: Some(bytes),
        slice: None,
        looped: false,
    };
    let tracks = vec![track("a.opus", opus_file()), track("b.aac", adts(&[7; 100]))];
    let (merged, warnings) = collect_audio(&tracks);
    assert_eq!(merged.unwrap().codec, AudioCodec::Opus);
    match &warnings[..] {
        [CandyWarn::AudioDropped(m)] => assert_eq!(m, "'b.aac' codec differs from first track"),
        other => panic!("unexpected warnings {other:?}"),
    }
}

#[test]
fn tracks_are_put_together() {
    let frame = adts(&[7; 100]);
    let track = |path: &str, start_ms: u32, bytes: Option<Vec<u8>>| LoadedTrack {
        path: path.to_string(),
        start_ms,
        bytes,
        slice: None,
        looped: false,
    };
    let tracks = vec![
        track("gone.aac", 0, None),
        track("a.aac", 100, Some(frame.clone())),
        track("b.aac", 500, Some(frame)),
        track("c.txt", 0, Some(b"text".to_vec())),
    ];
    let (merged, warnings) = collect_audio(&tracks);
    let m = merged.unwrap();
    let times: Vec<u64> = m.frames.iter().map(|f| f.timestamp_ms).collect();
    assert_eq!(times, vec![100, 500]);
    let told: Vec<String> = warnings
        .into_iter()
        .map(|w| match w {
            CandyWarn::AudioDropped(m) => m,
            other => panic!("unexpected warning {other:?}"),
        })
        .collect();
    assert_eq!(told, vec!["'gone.aac' unsupported format", "'c.txt' unsupported format"]);
    assert!(collect_audio(&Vec::new()).0.is_none());
}

#[test]
fn audio_goes_into_the_container() {
    let a = aac_track();
    let bytes = mux_mp4(&sample_video(), Some(&a), &sample_meta()).unwrap();
    assert!(holds(&bytes, b"mp4a"));
    assert!(bytes.ends_with(&[9, 8, 7]));
    assert!(mp4_warning(Some(&a)).is_none());
    let bytes = mux_matroska(&sample_video(), Some(&a), false, &sample_meta()).unwrap();
    assert!(holds(&bytes, b"A_AAC"));
}

#[test]
fn tracks_are_described_as_the_format_asks() {
    let bytes = mux_mp4(&sample_video(), Some(&aac_track()), &sample_meta()).unwrap();
    assert!(holds(&bytes, b"vmhd\0\0\0\x01\0\0\0\0\0\0\0\0"));
    // Video: 10 ticks a second, 2 of them.
    assert!(holds(&bytes, b"mdhd\0\0\0\0\0\0\0\0\0\0\0\0\0\0\0\x0a\0\0\0\x02\x55\xc4"));
    // Audio: 64-bit times, 44100 ticks a second, 1014 of them.
    let mut wide = b"mdhd\x01\0\0\0".to_vec();
    wide.extend_from_slice(&[0; 16]);
    wide.extend_from_slice(&44100u32.to_be_bytes());
    wide.extend_from_slice(&1014u64.to_be_bytes());
    assert!(holds(&bytes, &wide));
    let mut descriptor = b"esds".to_vec();
    descriptor.extend_from_slice(&[0, 0, 0, 0, 3, 25, 0, 1, 0, 4, 17, 0x40, 0x15]);
    descriptor.extend_from_slice(&[0; 11]);
    descriptor.extend_from_slice(&[5, 2, 0x12, 0x10, 6, 1, 2]);
    assert!(holds(&bytes, &descriptor));
}

#[test]
fn an_mp4_ignores_what_is_not_aac() {
    let (v, meta, a) = (sample_video(), sample_meta(), opus_track());
    assert_eq!(mux_mp4(&v, Some(&a), &meta).unwrap(), mux_mp4(&v, None, &meta).unwrap());
    assert!(matches!(mp4_warning(Some(&a)), Some(CandyWarn::AudioIgnored)));
    assert!(mp4_warning(None).is_none());
    assert!(audio_payload(Some(&a)).is_empty());
    assert_eq!(audio_payload(Some(&aac_track())), vec![9, 8, 7]);
    let (f, g) = (on_disk(&v), on_disk(&v));
    assert_eq!(
        mp4_file_header(&f, Some(&a), &meta).unwrap(),
        mp4_file_header(&g, None, &meta).unwrap()
    );
    assert!(holds(&mux_matroska(&v, Some(&a), false, &meta).unwrap(), b"A_Opus"));
}

// ---------------------------------------------------------------- ffmpeg

#[test]
fn ffmpeg_gets_its_command_line() {
    let frames = vec![RenderedFrame { width: 2, height: 1, rgba: vec![1, 2, 3, 4, 5, 6, 7, 8] }];
    let meta = sample_meta();
    let t = encode_via_ffmpeg(
        &frames,
        25,
        Codec::H264Vaapi,
        Container::Mp4,
        &meta,
        Some("/usr/bin/ffmpeg"),
        "/tmp/out",
    )
    .unwrap();
    assert_eq!(t.program, "/usr/bin/ffmpeg");
    assert_eq!(t.input, frames[0].rgba);
    let json = format!("candy-meta={}", meta.to_json());
    let want = vec![
        "-vaapi_device",
        "/dev/dri/renderD128",
        "-f",
        "rawvideo",
        "-pix_fmt",
        "rgba",
        "-s",
        "2x1",
        "-r",
        "25",
        "-i",
        "-",
        "-c:v",
        "h264_vaapi",
        "-vf",
        "format=nv12,hwupload",
        "-low_power",
        "1",
        "-qp",
        "24",
        "-metadata",
        json.as_str(),
        "-f",
        "mp4",
        "-y",
        "/tmp/out",
        "-movflags",
        "+faststart",
    ];
    assert_eq!(t.args, want);
    let fail = |frames: &[RenderedFrame], codec: Codec, program: Option<&str>| {
        let r = encode_via_ffmpeg(frames, 25, codec, Container::Mkv, &meta, program, "x");
        encode_message(r.unwrap_err())
    };
    assert_eq!(fail(&[], Codec::X264, Some("f")), "no frames to encode");
    assert_eq!(fail(&frames, Codec::X264, None), "ffmpeg not found on $PATH (E007)");
    assert_eq!(fail(&frames, Codec::H264, Some("f")), "codec H264 does not use ffmpeg");
    assert_eq!(ffmpeg_args(Codec::Vp9), Some(("libvpx-vp9", "webm")));
}

#[test]
fn libva_can_go_through_ffmpeg() {
    let run = |codec, ffmpeg| libva_command(codec, 16, 16, 30, ffmpeg, "out");
    let m = encode_message(run(Codec::H264, true).unwrap_err());
    assert_eq!(m, "codec H264 is not a libva codec");
    let m = encode_message(run(Codec::Av1Libva, false).unwrap_err());
    assert!(m.starts_with("ffmpeg not found: libva"));
    let args = run(Codec::H265Libva, true).unwrap();
    assert_eq!(args[args.len() - 2..], ["-y", "out"]);
    assert!(args.iter().any(|a| a == "hevc_vaapi"));
    assert_eq!(
        encode_message(finish_libva(false, None, 0).unwrap_err()),
        "libva encode failed: exit code -1"
    );
    assert_eq!(encode_message(finish_libva(true, Some(0), 0).unwrap_err()), "libva produced no output");
    assert!(finish_libva(true, Some(0), 1).is_ok());
}

#[test]
fn the_end_of_ffmpeg_is_judged() {
    assert_eq!(finish_ffmpeg(true, "exit status: 0", "", vec![1]).unwrap(), vec![1]);
    let e = finish_ffmpeg(true, "exit status: 0", "", Vec::new()).unwrap_err();
    assert_eq!(encode_message(e), "ffmpeg produced no output (E007)");
    let e = finish_ffmpeg(false, "exit status: 1", "a\r\nb\n", Vec::new()).unwrap_err();
    assert_eq!(encode_message(e), "ffmpeg exited with exit status: 1: a\nb");
    let e = finish_ffmpeg_to_file(false, "exit status: 1", "").unwrap_err();
    assert_eq!(
        encode_message(e),
        "ffmpeg exited with exit status: 1 (E007): (no ffmpeg stderr captured)"
    );
    assert!(finish_ffmpeg_to_file(true, "", "").is_ok());
    let log: String = (0..30).map(|i| format!("line {i}\n")).collect();
    let tail = read_err_log(&log);
    assert_eq!(tail.lines().count(), 20);
    assert!(tail.starts_with("line 10\n"));
    assert!(tail.ends_with("line 29"));
}

#[test]
fn a_pipe_has_room_for_a_frame() {
    assert_eq!(pipe_size(1, 1), 65536);
    assert_eq!(pipe_size(128, 128), 65536);
    assert_eq!(pipe_size(128, 129), 131072);
    assert_eq!(pipe_size(907, 510), 2097152);
}

// ---------------------------------------------------------------- hardware

#[test]
fn rows_are_put_together() {
    assert_eq!(find_row_stride(64, 256), 256);
    assert_eq!(find_row_stride(65, 256), 512);
    assert_eq!(find_row_stride(0, 256), 0);
    let data: Vec<u8> = (0..32).collect();
    let f = frame_of_rows(&data, 1, 2, 16);
    assert_eq!((f.width, f.height), (1, 2));
    assert_eq!(f.rgba, vec![0, 1, 2, 3, 16, 17, 18, 19]);
}

#[test]
fn missing_programs_are_stood_in_for() {
    assert_eq!(settle_codec(Codec::X264, false, true), Codec::H264);
    assert_eq!(settle_codec(Codec::X265, false, true), Codec::Av1);
    assert_eq!(settle_codec(Codec::H264Vaapi, true, false), Codec::H264);
    assert_eq!(settle_codec(Codec::H264Vaapi, false, true), Codec::H264);
    assert_eq!(settle_codec(Codec::H264Vaapi, true, true), Codec::H264Vaapi);
    assert_eq!(settle_codec(Codec::H265Vaapi, true, false), Codec::X265);
    assert_eq!(settle_codec(Codec::H265, false, false), Codec::H265);
}

fn libva_message(e: CandyError) -> String {
    assert_eq!(e.code(), "E007");
    match e {
        CandyError::Libva(m) => m,
        other => panic!("unexpected error {other:?}"),
    }
}

#[test]
fn drivers_are_asked_for_key_frames_only() {
    let mut s = LibvaStream::new(Codec::H264Libva, 64, 32, 30, true).unwrap();
    let first = s.request(7, 9);
    assert_eq!(
        first.stream,
        Some((
            Sequence::H264 {
                level_idc: 40,
                intra_period: 1,
                intra_idr_period: 1,
                ip_period: 1,
                max_num_ref_frames: 1,
                picture_width_in_mbs: 4,
                picture_height_in_mbs: 2,
                chroma_format_idc: 1,
                frame_mbs_only_flag: 1,
            },
            RateControl { target_percentage: 100, initial_qp: 26, min_qp: 1, max_qp: 51 },
            30
        ))
    );
    let picture = Picture::H264 { surface: 7, coded_buf: 9, pic_init_qp: 26, idr_pic_flag: 1 };
    assert_eq!(first.picture, picture);
    assert_eq!(first.slice, Slice::H264 { num_macroblocks: 8, slice_type: 2, idr_pic_id: 0 });
    let raw = [
        0, 0, 0, 1, 0x67, 0x42, 0xc0, 0x1f, 0, 0, 0, 1, 0x68, 0xce, 0, 0, 0, 1, 0x65, 5, 5, 5,
    ];
    assert!(is_readable(Profile::H264High, &raw));
    assert!(!is_readable(Profile::H264High, &[0, 0, 1, 0x67, 1]));
    let sample = s.absorb(&raw);
    assert_eq!(sample.len(), 22);
    let second = s.request(7, 9);
    assert_eq!(second.stream, None);
    assert_eq!(second.slice, Slice::H264 { num_macroblocks: 8, slice_type: 2, idr_pic_id: 1 });
    s.absorb(&raw);
    let f = s.finish_file("x".to_string()).unwrap();
    assert_eq!((f.width, f.height, f.fps, f.is_av1, f.is_hevc), (64, 32, 30, false, false));
    assert_eq!(f.sample_sizes, vec![22, 22]);
    assert_eq!(f.keyframes, vec![true, true]);
    assert_eq!(f.codec_private[..4], [1, 0x42, 0xc0, 0x1f]);
}

#[test]
fn hevc_and_av1_pictures_are_described() {
    let mut s = LibvaStream::new(Codec::H265Libva, 130, 64, 24, true).unwrap();
    let r = s.request(1, 2);
    assert_eq!(r.slice, Slice::Hevc { num_ctu_in_slice: 3, slice_type: 2, max_num_merge_cand: 3 });
    let picture = Picture::Hevc {
        surface: 1,
        coded_buf: 2,
        pic_init_qp: 26,
        nal_unit_type: 19,
        idr_pic_flag: 1,
    };
    assert_eq!(r.picture, picture);
    let mut s = LibvaStream::new(Codec::Av1Libva, 130, 64, 24, true).unwrap();
    let picture = Picture::Av1 {
        coded_buf: 2,
        frame_width_minus_1: 129,
        frame_height_minus_1: 63,
        base_qindex: 128,
        frame_type: 0,
        refresh_frame_flags: 255,
    };
    assert_eq!(s.request(1, 2).picture, picture);
    assert_eq!(coded_size(130, 64), 130 * 64 * 2 + 65536);
    assert!(is_describable(130, 64));
    assert!(!is_describable(65535, 65535));
    assert!(!is_describable(0, 64));
}

#[test]
fn hevc_is_told_apart() {
    let raw = [0, 0, 1, 0x40, 1, 0, 0, 1, 0x42, 2, 0, 0, 1, 0x44, 3, 0, 0, 1, 0x26, 4, 5, 6];
    let mut s = LibvaStream::new(Codec::H265Libva, 64, 64, 24, true).unwrap();
    assert!(is_readable(Profile::HevcMain, &raw));
    s.absorb(&raw);
    let f = s.finish_file("x".to_string()).unwrap();
    assert_eq!((f.is_av1, f.is_hevc), (false, true));
    let mut s = LibvaStream::new(Codec::Av1Libva, 64, 64, 24, true).unwrap();
    s.absorb(&[0x0a, 3, 0x40, 1, 9, 0x32, 1, 7]);
    let f = s.finish_file("x".to_string()).unwrap();
    assert_eq!((f.is_av1, f.is_hevc), (true, false));
}

#[test]
fn drivers_can_refuse() {
    let m = libva_message(LibvaStream::new(Codec::H264Libva, 1, 1, 1, false).unwrap_err());
    assert!(m.starts_with("libva not available"));
    let m = libva_message(LibvaStream::new(Codec::H264, 1, 1, 1, true).unwrap_err());
    assert_eq!(m, "codec H264 is not a direct-libva codec");
    assert!(va_ok(0, "vaInitialize").is_ok());
    let m = libva_message(va_ok(-1, "vaInitialize").unwrap_err());
    assert_eq!(m, "libva vaInitialize failed (VAStatus -1)");
    assert!(check_entrypoints(7, &[1, 6], 6).is_ok());
    let m = libva_message(check_entrypoints(7, &[1], 6).unwrap_err());
    assert!(m.starts_with("VAAPI profile 7 does not support the encode"));
    let s = LibvaStream::new(Codec::H264Libva, 16, 16, 1, true).unwrap();
    assert_eq!(libva_message(s.finish_file(String::new()).unwrap_err()), "no frames were encoded");
    let mut s = LibvaStream::new(Codec::H264Libva, 16, 16, 1, true).unwrap();
    s.absorb(&[0, 0, 1, 0x65, 1, 2, 3]);
    let m = libva_message(s.finish_file(String::new()).unwrap_err());
    assert!(m.starts_with("libva encode produced no codec-private data"));
}
