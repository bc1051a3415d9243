//! The ffmpeg program: what it is asked to do and what is made of its answer.

use vstd::prelude::*;
use vstd::string::*;
use crate::bytes::{low32, push_all, wrap32};
use crate::composite::joined;
use crate::diag::{CandyError, ErrorView};
use crate::h264::{bit_rate, find_bit_rate};
use crate::images::pixels;
use crate::meta::PrivateMeta;
use crate::text::{chars_of, decimal, join2, join3, string_of, texts, to_decimal};
use crate::video::{
    codec_name, frame_views, name_of, Codec, Container, FrameView, RenderedFrame,
};

verus! {

// ---------------------------------------------------------------- names

/// The encoder of ffmpeg for a codec, and the kind of file that it usually goes into. `None` for
/// a codec that needs no ffmpeg.
pub open spec fn encoder_of(codec: Codec) -> Option<(Seq<char>, Seq<char>)> {
    match codec {
        Codec::X264 => Some(("libx264"@, "mp4"@)),
        Codec::X265 => Some(("libx265"@, "mp4"@)),
        Codec::H264Vaapi => Some(("h264_vaapi"@, "mp4"@)),
        Codec::H265Vaapi => Some(("hevc_vaapi"@, "mp4"@)),
        Codec::H264VideoToolbox => Some(("h264_videotoolbox"@, "mp4"@)),
        Codec::H265VideoToolbox => Some(("hevc_videotoolbox"@, "mp4"@)),
        Codec::H264Qsv => Some(("h264_qsv"@, "mp4"@)),
        Codec::H265Qsv => Some(("hevc_qsv"@, "mp4"@)),
        Codec::H265 => Some(("libx265"@, "mp4"@)),
        Codec::Av1Vaapi => Some(("av1_vaapi"@, "mp4"@)),
        Codec::Vp9 => Some(("libvpx-vp9"@, "webm"@)),
        Codec::Vp8 => Some(("libvpx"@, "webm"@)),
        Codec::Av1 | Codec::H264 | Codec::H264Libva | Codec::H265Libva | Codec::Av1Libva => None,
    }
}

/// The value of an optional pair of names.
pub open spec fn opt_names(r: Option<(&str, &str)>) -> Option<(Seq<char>, Seq<char>)> {
    match r {
        Some((a, b)) => Some((a@, b@)),
        None => None,
    }
}

/// Finds the encoder of ffmpeg for a codec.
pub fn ffmpeg_args(codec: Codec) -> (r: Option<(&'static str, &'static str)>)
    ensures
        opt_names(r) == encoder_of(codec),
{
    match codec {
        Codec::X264 => Some(("libx264", "mp4")),
        Codec::X265 => Some(("libx265", "mp4")),
        Codec::H264Vaapi => Some(("h264_vaapi", "mp4")),
        Codec::H265Vaapi => Some(("hevc_vaapi", "mp4")),
        Codec::H264VideoToolbox => Some(("h264_videotoolbox", "mp4")),
        Codec::H265VideoToolbox => Some(("hevc_videotoolbox", "mp4")),
        Codec::H264Qsv => Some(("h264_qsv", "mp4")),
        Codec::H265Qsv => Some(("hevc_qsv", "mp4")),
        Codec::H265 => Some(("libx265", "mp4")),
        Codec::Av1Vaapi => Some(("av1_vaapi", "mp4")),
        Codec::Vp9 => Some(("libvpx-vp9", "webm")),
        Codec::Vp8 => Some(("libvpx", "webm")),
        Codec::Av1 | Codec::H264 | Codec::H264Libva | Codec::H265Libva | Codec::Av1Libva => None,
    }
}

/// The name of a container in ffmpeg.
pub open spec fn format_of(c: Container) -> Seq<char> {
    match c {
        Container::Mp4 => "mp4"@,
        Container::Mkv => "matroska"@,
        Container::Webm => "webm"@,
    }
}

/// The name of a container in ffmpeg.
pub fn container_format(c: Container) -> (r: &'static str)
    ensures
        r@ == format_of(c),
{
    match c {
        Container::Mp4 => "mp4",
        Container::Mkv => "matroska",
        Container::Webm => "webm",
    }
}

/// The encoder of ffmpeg that stands in for a codec of VAAPI alone.
pub open spec fn vaapi_of(codec: Codec) -> Option<Seq<char>> {
    match codec {
        Codec::H264Libva => Some("h264_vaapi"@),
        Codec::H265Libva => Some("hevc_vaapi"@),
        Codec::Av1Libva => Some("av1_vaapi"@),
        _ => None,
    }
}

/// Finds the encoder of ffmpeg that stands in for a codec of VAAPI alone.
pub fn vaapi_encoder(codec: Codec) -> (r: Option<&'static str>)
    ensures
        match r {
            Some(s) => vaapi_of(codec) == Some(s@),
            None => vaapi_of(codec) is None,
        },
{
    match codec {
        Codec::H264Libva => Some("h264_vaapi"),
        Codec::H265Libva => Some("hevc_vaapi"),
        Codec::Av1Libva => Some("av1_vaapi"),
        _ => None,
    }
}

// ---------------------------------------------------------------- the command line

/// What ffmpeg is asked to do.
#[derive(Debug)]
pub struct Job {
    pub codec: Codec,
    pub container: Container,
    pub w: u32,
    pub h: u32,
    pub fps: u32,
    /// Where the raw frames come from.
    pub input: String,
    /// Where the file goes.
    pub sink: String,
}

/// The device of VAAPI.
pub open spec fn render_node() -> Seq<char> {
    "/dev/dri/renderD128"@
}

/// Whether the codec goes through VAAPI.
pub open spec fn is_vaapi(c: Codec) -> bool {
    c == Codec::H264Vaapi || c == Codec::H265Vaapi || c == Codec::Av1Vaapi
}

/// The options that describe the raw frames.
pub open spec fn frame_options(w: u32, h: u32, fps: u32, input: Seq<char>) -> Seq<Seq<char>> {
    seq![
        "-f"@,
        "rawvideo"@,
        "-pix_fmt"@,
        "rgba"@,
        "-s"@,
        decimal(w as nat) + "x"@ + decimal(h as nat),
        "-r"@,
        decimal(fps as nat),
        "-i"@,
        input,
    ]
}

/// The options that only some encoders take.
pub open spec fn encoder_options(codec: Codec, w: u32, h: u32, fps: u32) -> Seq<Seq<char>> {
    match codec {
        Codec::X264 | Codec::X265 | Codec::H265 | Codec::Vp9 | Codec::Vp8 => seq![
            "-preset"@,
            "medium"@,
            "-crf"@,
            "23"@,
            "-vf"@,
            "format=yuv420p"@,
            "-threads"@,
            "0"@,
        ],
        Codec::H264Vaapi | Codec::H265Vaapi | Codec::Av1Vaapi => seq![
            "-vf"@,
            "format=nv12,hwupload"@,
            "-low_power"@,
            "1"@,
            "-qp"@,
            "24"@,
        ],
        Codec::H264VideoToolbox | Codec::H265VideoToolbox => seq![
            "-b:v"@,
            decimal(bit_rate(w as int, h as int, fps) as nat),
        ],
        Codec::H264Qsv | Codec::H265Qsv => seq![
            "-init_hw_device"@,
            "qsv=qsv:/dev/dri/renderD128"@,
            "-vf"@,
            "format=nv12,hwupload=extra_hw_frames=64"@,
            "-b:v"@,
            decimal(bit_rate(w as int, h as int, fps) as nat),
        ],
        _ => Seq::empty(),
    }
}

/// The command line of ffmpeg: a device where there is one comes before the frames, and the
/// private metadata goes with the file.
pub open spec fn command_line(job: Job, encoder: Seq<char>, json: Seq<char>) -> Seq<Seq<char>> {
    (if is_vaapi(job.codec) {
        seq!["-vaapi_device"@, render_node()]
    } else {
        Seq::empty()
    }) + frame_options(job.w, job.h, job.fps, job.input@) + seq!["-c:v"@, encoder]
        + encoder_options(job.codec, job.w, job.h, job.fps) + seq![
        "-metadata"@,
        "candy-meta="@ + json,
        "-f"@,
        format_of(job.container),
        "-y"@,
        job.sink@,
    ] + (if job.container == Container::Mp4 {
        seq!["-movflags"@, "+faststart"@]
    } else {
        Seq::empty()
    })
}

fn option(v: &mut Vec<String>, name: &str, value: &str)
    ensures
        texts(final(v)@) == texts(old(v)@) + seq![name@, value@],
{
    v.push(name.to_owned());
    v.push(value.to_owned());
    assert(texts(v@) =~= texts(old(v)@) + seq![name@, value@]);
}

fn push_frame_options(v: &mut Vec<String>, w: u32, h: u32, fps: u32, input: &str)
    ensures
        texts(final(v)@) == texts(old(v)@) + frame_options(w, h, fps, input@),
{
    let size = join3(to_decimal(w as u64).as_str(), "x", to_decimal(h as u64).as_str());
    option(v, "-f", "rawvideo");
    option(v, "-pix_fmt", "rgba");
    option(v, "-s", size.as_str());
    option(v, "-r", to_decimal(fps as u64).as_str());
    option(v, "-i", input);
    assert(texts(v@) =~= texts(old(v)@) + frame_options(w, h, fps, input@));
}

fn find_rate(w: u32, h: u32, fps: u32) -> (r: String)
    ensures
        r@ == decimal(bit_rate(w as int, h as int, fps) as nat),
{
    assert(w * h <= u32::MAX * u32::MAX) by (nonlinear_arith)
        requires
            w <= u32::MAX,
            h <= u32::MAX,
    ;
    to_decimal(find_bit_rate(w as u64, h as u64, fps) as u64)
}

fn push_encoder_options(v: &mut Vec<String>, codec: Codec, w: u32, h: u32, fps: u32)
    ensures
        texts(final(v)@) == texts(old(v)@) + encoder_options(codec, w, h, fps),
{
    match codec {
        Codec::X264 | Codec::X265 | Codec::H265 | Codec::Vp9 | Codec::Vp8 => {
            option(v, "-preset", "medium");
            option(v, "-crf", "23");
            option(v, "-vf", "format=yuv420p");
            option(v, "-threads", "0");
        },
        Codec::H264Vaapi | Codec::H265Vaapi | Codec::Av1Vaapi => {
            option(v, "-vf", "format=nv12,hwupload");
            option(v, "-low_power", "1");
            option(v, "-qp", "24");
        },
        Codec::H264VideoToolbox | Codec::H265VideoToolbox => {
            option(v, "-b:v", find_rate(w, h, fps).as_str());
        },
        Codec::H264Qsv | Codec::H265Qsv => {
            option(v, "-init_hw_device", "qsv=qsv:/dev/dri/renderD128");
            option(v, "-vf", "format=nv12,hwupload=extra_hw_frames=64");
            option(v, "-b:v", find_rate(w, h, fps).as_str());
        },
        _ => {},
    }
    assert(texts(v@) =~= texts(old(v)@) + encoder_options(codec, w, h, fps));
}

/// Writes the command line of ffmpeg for a job.
pub fn ffmpeg_command(job: &Job, private_metadata: &PrivateMeta) -> (r: Result<
    Vec<String>,
    CandyError,
>)
    ensures
        match encoder_of(job.codec) {
            Some((encoder, _)) => r matches Ok(v) && texts(v@) == command_line(
                *job,
                encoder,
                private_metadata@.json(),
            ),
            None => r matches Err(e) && e@ == ErrorView::Encode(
                "codec "@ + codec_name(job.codec) + " does not use ffmpeg"@,
            ),
        },
{
    let encoder = match ffmpeg_args(job.codec) {
        Some((encoder, _)) => encoder,
        None => {
            let message = join3("codec ", name_of(job.codec), " does not use ffmpeg");
            return Err(CandyError::Encode(message));
        },
    };
    let mut v: Vec<String> = Vec::new();
    match job.codec {
        Codec::H264Vaapi | Codec::H265Vaapi | Codec::Av1Vaapi => {
            option(&mut v, "-vaapi_device", "/dev/dri/renderD128");
        },
        _ => {},
    }
    assert(texts(v@) =~= if is_vaapi(job.codec) {
        seq!["-vaapi_device"@, render_node()]
    } else {
        Seq::empty()
    });
    push_frame_options(&mut v, job.w, job.h, job.fps, job.input.as_str());
    option(&mut v, "-c:v", encoder);
    push_encoder_options(&mut v, job.codec, job.w, job.h, job.fps);
    let ghost before = texts(v@);
    let meta = join2("candy-meta=", private_metadata.to_json().as_str());
    option(&mut v, "-metadata", meta.as_str());
    option(&mut v, "-f", container_format(job.container));
    option(&mut v, "-y", job.sink.as_str());
    assert(texts(v@) =~= before + seq![
        "-metadata"@,
        "candy-meta="@ + private_metadata@.json(),
        "-f"@,
        format_of(job.container),
        "-y"@,
        job.sink@,
    ]);
    let ghost all = texts(v@);
    match job.container {
        Container::Mp4 => {
            option(&mut v, "-movflags", "+faststart");
        },
        _ => {},
    }
    assert(texts(v@) =~= all + if job.container == Container::Mp4 {
        seq!["-movflags"@, "+faststart"@]
    } else {
        Seq::empty()
    });
    Ok(v)
}

/// The command line of ffmpeg for a codec of VAAPI alone.
pub open spec fn libva_line(
    encoder: Seq<char>,
    w: u32,
    h: u32,
    fps: u32,
    sink: Seq<char>,
) -> Seq<Seq<char>> {
    seq!["-vaapi_device"@, render_node()] + frame_options(w, h, fps, "-"@) + seq![
        "-vf"@,
        "format=nv12,hwupload"@,
        "-c:v"@,
        encoder,
        "-low_power"@,
        "1"@,
        "-qp"@,
        "24"@,
        "-f"@,
        "h264"@,
        "-y"@,
        sink,
    ]
}

/// Decides how a codec of VAAPI alone is run where the driver cannot be used: through ffmpeg. The
/// result is the command line.
pub fn libva_command(
    codec: Codec,
    w: u32,
    h: u32,
    fps: u32,
    has_ffmpeg: bool,
    sink: &str,
) -> (r: Result<Vec<String>, CandyError>)
    ensures
        match vaapi_of(codec) {
            None => r matches Err(e) && e@ == ErrorView::Encode(
                "codec "@ + codec_name(codec) + " is not a libva codec"@,
            ),
            Some(encoder) => if !has_ffmpeg {
                r matches Err(e) && e@ == ErrorView::Encode(
                    "ffmpeg not found: libva direct fallback requires ffmpeg with VAAPI support"@,
                )
            } else {
                r matches Ok(v) && texts(v@) == libva_line(encoder, w, h, fps, sink@)
            },
        },
{
    let encoder = match vaapi_encoder(codec) {
        Some(e) => e,
        None => {
            let message = join3("codec ", name_of(codec), " is not a libva codec");
            return Err(CandyError::Encode(message));
        },
    };
    if !has_ffmpeg {
        return Err(
            CandyError::Encode(
                "ffmpeg not found: libva direct fallback requires ffmpeg with VAAPI support".to_owned(),
            ),
        );
    }
    let mut v: Vec<String> = Vec::new();
    option(&mut v, "-vaapi_device", "/dev/dri/renderD128");
    assert(texts(v@) =~= seq!["-vaapi_device"@, render_node()]);
    push_frame_options(&mut v, w, h, fps, "-");
    let ghost before = texts(v@);
    option(&mut v, "-vf", "format=nv12,hwupload");
    option(&mut v, "-c:v", encoder);
    option(&mut v, "-low_power", "1");
    option(&mut v, "-qp", "24");
    option(&mut v, "-f", "h264");
    option(&mut v, "-y", sink);
    assert(texts(v@) =~= before + seq![
        "-vf"@,
        "format=nv12,hwupload"@,
        "-c:v"@,
        encoder@,
        "-low_power"@,
        "1"@,
        "-qp"@,
        "24"@,
        "-f"@,
        "h264"@,
        "-y"@,
        sink@,
    ]);
    Ok(v)
}

/// What is handed to ffmpeg: its command line, and the raw frames one after the other.
#[derive(Debug)]
pub struct Task {
    pub program: String,
    pub args: Vec<String>,
    pub input: Vec<u8>,
}

/// Decides how frames are coded with ffmpeg. The size of the first frame is the size of the video.
/// `program` is the ffmpeg that was found, `sink` is where its file goes.
pub fn encode_via_ffmpeg(
    frames: &[RenderedFrame],
    fps: u32,
    codec: Codec,
    container: Container,
    private_metadata: &PrivateMeta,
    program: Option<&str>,
    sink: &str,
) -> (r: Result<Task, CandyError>)
    ensures
        if frames@.len() == 0 {
            r matches Err(e) && e@ == ErrorView::Encode("no frames to encode"@)
        } else {
            match (program, encoder_of(codec)) {
                (None, _) => r matches Err(e) && e@ == ErrorView::Encode(
                    "ffmpeg not found on $PATH (E007)"@,
                ),
                (Some(_), None) => r matches Err(e) && e@ == ErrorView::Encode(
                    "codec "@ + codec_name(codec) + " does not use ffmpeg"@,
                ),
                (Some(p), Some((encoder, _))) => r matches Ok(t) && t.program@ == p@
                    && t.input@ == pixels(frame_views(frames@)) && (exists|job: Job|
                    texts(t.args@) == #[trigger] command_line(
                        job,
                        encoder,
                        private_metadata@.json(),
                    ) && job.codec == codec && job.container == container && job.w == wrap32(
                        frames@[0].width as int,
                    ) && job.h == wrap32(frames@[0].height as int) && job.fps == fps
                        && job.input@ == "-"@ && job.sink@ == sink@),
            }
        },
{
    if frames.len() == 0 {
        return Err(CandyError::Encode("no frames to encode".to_owned()));
    }
    let program = match program {
        Some(p) => p,
        None => {
            return Err(CandyError::Encode("ffmpeg not found on $PATH (E007)".to_owned()));
        },
    };
    let job = Job {
        codec,
        container,
        w: low32(frames[0].width),
        h: low32(frames[0].height),
        fps,
        input: "-".to_owned(),
        sink: sink.to_owned(),
    };
    let args = match ffmpeg_command(&job, private_metadata) {
        Ok(v) => v,
        Err(e) => {
            return Err(e);
        },
    };
    let ghost s = frame_views(frames@);
    let mut input: Vec<u8> = Vec::new();
    let mut i: usize = 0;
    assert(s.take(0) =~= Seq::<FrameView>::empty());
    while i < frames.len()
        invariant
            i <= frames@.len(),
            s == frame_views(frames@),
            input@ == pixels(s.take(i as int)),
        decreases frames.len() - i,
    {
        assert(s.take(i + 1).drop_last() =~= s.take(i as int));
        assert(s[i as int] == frames@[i as int]@);
        push_all(&mut input, frames[i].rgba.as_slice());
        i += 1;
    }
    assert(s.take(s.len() as int) =~= s);
    Ok(Task { program: program.to_owned(), args, input })
}

// ---------------------------------------------------------------- the answer

/// The place of the first line end; the length where there is none.
pub open spec fn line_end(s: Seq<char>) -> int
    decreases s.len(),
{
    if s.len() == 0 || s[0] == '\n' {
        0
    } else {
        1 + line_end(s.skip(1))
    }
}

/// A line without the carriage return at its end.
pub open spec fn uncarried(s: Seq<char>) -> Seq<char> {
    if s.len() > 0 && s.last() == '\r' {
        s.drop_last()
    } else {
        s
    }
}

/// A line end lies inside the text.
pub proof fn lemma_line_end(s: Seq<char>)
    ensures
        0 <= line_end(s) <= s.len(),
    decreases s.len(),
{
    if s.len() > 0 && s[0] != '\n' {
        lemma_line_end(s.skip(1));
    }
}

/// The lines of a text.
pub open spec fn lines(s: Seq<char>) -> Seq<Seq<char>>
    decreases s.len(),
{
    if s.len() == 0 {
        Seq::empty()
    } else if line_end(s) >= s.len() {
        seq![s]
    } else {
        proof {
            lemma_line_end(s);
        }
        seq![uncarried(s.take(line_end(s)))] + lines(s.skip(line_end(s) + 1))
    }
}

/// The last `n` of a list.
pub open spec fn last_of(s: Seq<Seq<char>>, n: int) -> Seq<Seq<char>> {
    if s.len() > n {
        s.skip(s.len() - n)
    } else {
        s
    }
}

/// What is told of a log: its last 20 lines.
pub open spec fn log_tail(raw: Seq<char>) -> Seq<char> {
    if raw.len() == 0 {
        "(no ffmpeg stderr captured)"@
    } else {
        joined(last_of(lines(raw), 20), "\n"@)
    }
}

fn find_line_end(s: &Vec<char>, from: usize) -> (r: usize)
    requires
        from <= s@.len(),
    ensures
        r as int == from + line_end(s@.skip(from as int)),
        from <= r <= s@.len(),
{
    let mut i: usize = from;
    while i < s.len() && s[i] != '\n'
        invariant
            from <= i <= s@.len(),
            from + line_end(s@.skip(from as int)) == i + line_end(s@.skip(i as int)),
        decreases s.len() - i,
    {
        assert(s@.skip(i as int).skip(1) =~= s@.skip(i + 1));
        assert(s@.skip(i as int)[0] == s@[i as int]);
        i += 1;
    }
    if i < s.len() {
        assert(s@.skip(i as int)[0] == s@[i as int]);
    }
    i
}

fn split_lines(s: &Vec<char>) -> (r: Vec<Vec<char>>)
    ensures
        crate::text::char_views(r@) == lines(s@),
{
    let mut r: Vec<Vec<char>> = Vec::new();
    let mut i: usize = 0;
    assert(s@.skip(0) =~= s@);
    assert(crate::text::char_views(r@) + lines(s@) =~= lines(s@));
    while i < s.len()
        invariant
            i <= s@.len(),
            crate::text::char_views(r@) + lines(s@.skip(i as int)) == lines(s@),
        decreases s.len() - i,
    {
        let ghost rest = s@.skip(i as int);
        let ghost before = crate::text::char_views(r@);
        let end: usize = find_line_end(s, i);
        if end == s.len() {
            let line = crate::text::sub_chars(s, i, end);
            assert(line@ =~= rest);
            r.push(line);
            assert(crate::text::char_views(r@) =~= before.push(line@));
            assert(before.push(line@) =~= before + seq![rest]);
            return r;
        }
        let stop: usize = if end > i && s[end - 1] == '\r' {
            end - 1
        } else {
            end
        };
        let line = crate::text::sub_chars(s, i, stop);
        proof {
            let k = line_end(rest);
            assert(k == end - i);
            if k > 0 {
                assert(rest.take(k).last() == s@[end - 1]);
            }
            assert(line@ =~= uncarried(rest.take(k)));
            assert(rest.skip(k + 1) =~= s@.skip(end + 1));
        }
        r.push(line);
        proof {
            assert(crate::text::char_views(r@) =~= before.push(line@));
            assert(before.push(line@) + lines(s@.skip(end + 1)) =~= before + (seq![line@] + lines(
                s@.skip(end + 1),
            )));
        }
        i = end + 1;
    }
    assert(s@.skip(i as int).len() == 0);
    assert(crate::text::char_views(r@) + Seq::<Seq<char>>::empty() =~= crate::text::char_views(r@));
    r
}

/// Tells what a log of ffmpeg ends with.
pub fn read_err_log(raw: &str) -> (r: String)
    ensures
        r@ == log_tail(raw@),
{
    let s = chars_of(raw);
    if s.len() == 0 {
        return "(no ffmpeg stderr captured)".to_owned();
    }
    let all = split_lines(&s);
    let ghost v = crate::text::char_views(all@);
    let start: usize = if all.len() > 20 {
        all.len() - 20
    } else {
        0
    };
    let ghost tail = last_of(lines(raw@), 20);
    let mut out = String::new();
    let mut i: usize = start;
    assert(tail =~= v.skip(start as int));
    assert(tail.take(0) =~= Seq::<Seq<char>>::empty());
    while i < all.len()
        invariant
            start <= i <= all@.len(),
            v == crate::text::char_views(all@),
            tail == v.skip(start as int),
            out@ == joined(tail.take(i - start), "\n"@),
        decreases all.len() - i,
    {
        let ghost k = i - start;
        assert(tail.take(k + 1).drop_last() =~= tail.take(k));
        assert(tail[k] == all@[i as int]@);
        let line = string_of(all[i].as_slice());
        if i == start {
            out = line;
        } else {
            out = join3(out.as_str(), "\n", line.as_str());
        }
        i += 1;
    }
    assert(tail.take(tail.len() as int) =~= tail);
    out
}

/// Judges how ffmpeg ended when its file is read back. `status` is how its end is described.
pub fn finish_ffmpeg(success: bool, status: &str, log: &str, output: Vec<u8>) -> (r: Result<
    Vec<u8>,
    CandyError,
>)
    ensures
        if !success {
            r matches Err(e) && e@ == ErrorView::Encode(
                "ffmpeg exited with "@ + status@ + ": "@ + log_tail(log@),
            )
        } else if output@.len() == 0 {
            r matches Err(e) && e@ == ErrorView::Encode("ffmpeg produced no output (E007)"@)
        } else {
            r matches Ok(v) && v@ == output@
        },
{
    if !success {
        let start = join3("ffmpeg exited with ", status, ": ");
        let tail = read_err_log(log);
        return Err(CandyError::Encode(join2(start.as_str(), tail.as_str())));
    }
    if output.len() == 0 {
        return Err(CandyError::Encode("ffmpeg produced no output (E007)".to_owned()));
    }
    Ok(output)
}

/// Judges how ffmpeg ended when its file is copied. `status` is how its end is described.
pub fn finish_ffmpeg_to_file(success: bool, status: &str, log: &str) -> (r: Result<(), CandyError>)
    ensures
        if success {
            r is Ok
        } else {
            r matches Err(e) && e@ == ErrorView::Encode(
                "ffmpeg exited with "@ + status@ + " (E007): "@ + log_tail(log@),
            )
        },
{
    if success {
        return Ok(());
    }
    let start = join3("ffmpeg exited with ", status, " (E007): ");
    let tail = read_err_log(log);
    Err(CandyError::Encode(join2(start.as_str(), tail.as_str())))
}

/// Judges how ffmpeg ended when it stood in for VAAPI alone. `code` is its exit code, if it has
/// one, and `size` the number of bytes that it wrote.
pub fn finish_libva(success: bool, code: Option<i32>, size: u64) -> (r: Result<(), CandyError>)
    ensures
        if !success {
            r matches Err(e) && e@ == ErrorView::Encode(
                "libva encode failed: exit code "@ + signed(match code {
                    Some(c) => c as int,
                    None => -1,
                }),
            )
        } else if size == 0 {
            r matches Err(e) && e@ == ErrorView::Encode("libva produced no output"@)
        } else {
            r is Ok
        },
{
    if !success {
        let c: i32 = match code {
            Some(c) => c,
            None => -1,
        };
        let number = write_signed(c);
        return Err(
            CandyError::Encode(join2("libva encode failed: exit code ", number.as_str())),
        );
    }
    if size == 0 {
        return Err(CandyError::Encode("libva produced no output".to_owned()));
    }
    Ok(())
}

/// A number in decimal, with a minus sign where it is negative.
pub open spec fn signed(n: int) -> Seq<char> {
    if n < 0 {
        "-"@ + decimal((-n) as nat)
    } else {
        decimal(n as nat)
    }
}

/// Writes a number in decimal, with a minus sign where it is negative.
pub fn write_signed(n: i32) -> (r: String)
    ensures
        r@ == signed(n as int),
{
    if n < 0 {
        let m: i64 = -(n as i64);
        join2("-", to_decimal(m as u64).as_str())
    } else {
        to_decimal(n as u64)
    }
}

/// How many bytes a pipe for frames of the given size has room for: a power of two, at least the
/// bytes of one frame and at least 65536.
pub fn pipe_size(w: u32, h: u32) -> (r: u64)
    requires
        w * h * 4 <= 0x4000_0000_0000_0000,
    ensures
        r >= w * h * 4,
        r >= 65536,
        exists|k: nat| r == #[trigger] vstd::arithmetic::power2::pow2(k),
        r > 65536 ==> r < 2 * (w * h * 4),
{
    let bytes: u64 = w as u64 * h as u64 * 4;
    let mut r: u64 = 65536;
    proof {
        vstd::arithmetic::power2::lemma2_to64();
    }
    let ghost mut k: nat = 16;
    while r < bytes
        invariant
            65536 <= r <= 0x8000_0000_0000_0000,
            bytes <= 0x4000_0000_0000_0000,
            r == vstd::arithmetic::power2::pow2(k),
            r > 65536 ==> r < 2 * bytes,
        decreases 0x8000_0000_0000_0000 - r,
    {
        proof {
            vstd::arithmetic::power2::lemma_pow2_unfold(k + 1);
            k = k + 1;
        }
        r = r * 2;
    }
    r
}

} // verus!
