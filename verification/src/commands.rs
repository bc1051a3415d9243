//! What a command line tells the ffmpeg program.

use vstd::prelude::*;
use crate::ffmpeg::{
    command_line, encoder_of, encoder_options, format_of, frame_options, is_vaapi, libva_line,
    render_node, vaapi_of, Job,
};
use crate::text::{decimal, law_decimal_read_back};
use crate::video::{Codec, Container};

verus! {

/// Whether a command line sets an option: its name stands at place `k`, and its value behind it.
pub open spec fn sets(args: Seq<Seq<char>>, k: int, name: Seq<char>, value: Seq<char>) -> bool {
    0 <= k && k + 1 < args.len() && args[k] == name && args[k + 1] == value
}

/// Whether a text gives a width and a height: two numbers in decimal with an `x` between them.
pub open spec fn gives_size(s: Seq<char>, w: nat, h: nat) -> bool {
    s == decimal(w) + seq!['x'] + decimal(h)
}

/// Raw frames go in as they are: the size is told across first, then the rate and where they come
/// from, all in front of the encoder; what comes out goes to the sink, in the format of the
/// container.
pub proof fn law_command_line(job: Job, encoder: Seq<char>, json: Seq<char>) -> (k: int)
    ensures
        ({
            let a = command_line(job, encoder, json);
            let end = if job.container == Container::Mp4 {
                a.len() - 2
            } else {
                a.len() as int
            };
            &&& k == if is_vaapi(job.codec) {
                2int
            } else {
                0
            }
            &&& sets(a, k, "-f"@, "rawvideo"@)
            &&& sets(a, k + 2, "-pix_fmt"@, "rgba"@)
            &&& a[k + 4] == "-s"@ && gives_size(a[k + 5], job.w as nat, job.h as nat)
            &&& sets(a, k + 6, "-r"@, decimal(job.fps as nat))
            &&& sets(a, k + 8, "-i"@, job.input@)
            &&& sets(a, k + 10, "-c:v"@, encoder)
            &&& sets(a, end - 6, "-metadata"@, "candy-meta="@ + json)
            &&& sets(a, end - 4, "-f"@, format_of(job.container))
            &&& sets(a, end - 2, "-y"@, job.sink@)
            &&& job.container == Container::Mp4 ==> sets(a, end, "-movflags"@, "+faststart"@)
            &&& is_vaapi(job.codec) ==> sets(a, 0, "-vaapi_device"@, render_node())
        }),
{
    let none = Seq::<Seq<char>>::empty();
    let front = if is_vaapi(job.codec) {
        seq!["-vaapi_device"@, render_node()]
    } else {
        none
    };
    let options = frame_options(job.w, job.h, job.fps, job.input@);
    let coder = seq!["-c:v"@, encoder];
    let more = encoder_options(job.codec, job.w, job.h, job.fps);
    let last = seq![
        "-metadata"@,
        "candy-meta="@ + json,
        "-f"@,
        format_of(job.container),
        "-y"@,
        job.sink@,
    ];
    let fast = if job.container == Container::Mp4 {
        seq!["-movflags"@, "+faststart"@]
    } else {
        none
    };
    let a = command_line(job, encoder, json);
    assert(a == front + options + coder + more + last + fast);
    let k = front.len() as int;
    assert forall|i: int| 0 <= i < 10 implies a[k + i] == options[i] by {}
    assert(a[k + 10] == coder[0] && a[k + 11] == coder[1]);
    let m = k + 12 + more.len();
    assert forall|i: int| 0 <= i < 6 implies a[m + i] == last[i] by {}
    assert forall|i: int| 0 <= i < fast.len() implies a[m + 6 + i] == fast[i] by {}
    assert(a.len() == m + 6 + fast.len());
    assert(a[k + 0] == options[0] && a[k + 1] == options[1] && a[k + 2] == options[2] && a[k + 3]
        == options[3] && a[k + 4] == options[4] && a[k + 5] == options[5] && a[k + 6] == options[6]
        && a[k + 7] == options[7] && a[k + 8] == options[8] && a[k + 9] == options[9]);
    assert(a[m + 0] == last[0] && a[m + 1] == last[1] && a[m + 2] == last[2] && a[m + 3] == last[3]
        && a[m + 4] == last[4] && a[m + 5] == last[5]);
    assert("x"@ =~= seq!['x']) by {
        reveal_strlit("x");
    }
    k
}

/// A size can be read in one way only.
pub proof fn law_size_read_back(s: Seq<char>, w: nat, h: nat, w2: nat, h2: nat)
    requires
        gives_size(s, w, h),
        gives_size(s, w2, h2),
    ensures
        w == w2,
        h == h2,
{
    law_decimal_read_back(w);
    law_decimal_read_back(h);
    law_decimal_read_back(w2);
    law_decimal_read_back(h2);
    let n = decimal(w).len() as int;
    let n2 = decimal(w2).len() as int;
    assert(s[n] == 'x' && s[n2] == 'x');
    if n < n2 {
        assert(s[n] == decimal(w2)[n]);
        assert(false);
    }
    if n2 < n {
        assert(s[n2] == decimal(w)[n2]);
        assert(false);
    }
    assert(s.take(n) =~= decimal(w));
    assert(s.take(n) =~= decimal(w2));
    assert(s.skip(n + 1) =~= decimal(h));
    assert(s.skip(n + 1) =~= decimal(h2));
}

/// The containers go by these names.
pub proof fn law_formats(c: Container)
    ensures
        c == Container::Mp4 ==> format_of(c) == "mp4"@,
        c == Container::Mkv ==> format_of(c) == "matroska"@,
        c == Container::Webm ==> format_of(c) == "webm"@,
{
}

/// Each codec has the encoder of its kind: the software encoders, those of VAAPI, VideoToolbox and
/// Quick Sync; VP8 and VP9 go into WebM, all others into MP4. Codecs that need no program have
/// none.
pub proof fn law_encoders(c: Codec)
    ensures
        c == Codec::X264 ==> encoder_of(c) == Some(("libx264"@, "mp4"@)),
        c == Codec::X265 || c == Codec::H265 ==> encoder_of(c) == Some(("libx265"@, "mp4"@)),
        c == Codec::H264Vaapi ==> encoder_of(c) == Some(("h264_vaapi"@, "mp4"@)),
        c == Codec::H265Vaapi ==> encoder_of(c) == Some(("hevc_vaapi"@, "mp4"@)),
        c == Codec::Av1Vaapi ==> encoder_of(c) == Some(("av1_vaapi"@, "mp4"@)),
        c == Codec::H264VideoToolbox ==> encoder_of(c) == Some(("h264_videotoolbox"@, "mp4"@)),
        c == Codec::H265VideoToolbox ==> encoder_of(c) == Some(("hevc_videotoolbox"@, "mp4"@)),
        c == Codec::H264Qsv ==> encoder_of(c) == Some(("h264_qsv"@, "mp4"@)),
        c == Codec::H265Qsv ==> encoder_of(c) == Some(("hevc_qsv"@, "mp4"@)),
        c == Codec::Vp9 ==> encoder_of(c) == Some(("libvpx-vp9"@, "webm"@)),
        c == Codec::Vp8 ==> encoder_of(c) == Some(("libvpx"@, "webm"@)),
        encoder_of(c) is Some <==> c.through_ffmpeg() || c == Codec::H265,
        c == Codec::H264Libva ==> vaapi_of(c) == Some("h264_vaapi"@),
        c == Codec::H265Libva ==> vaapi_of(c) == Some("hevc_vaapi"@),
        c == Codec::Av1Libva ==> vaapi_of(c) == Some("av1_vaapi"@),
        vaapi_of(c) is Some ==> encoder_of(c) is None,
{
}

/// Frames for VAAPI are told of in the same way, and go through the render node.
pub proof fn law_libva_line(encoder: Seq<char>, w: u32, h: u32, fps: u32, sink: Seq<char>)
    ensures
        ({
            let a = libva_line(encoder, w, h, fps, sink);
            &&& sets(a, 0, "-vaapi_device"@, render_node())
            &&& sets(a, 2, "-f"@, "rawvideo"@)
            &&& a[6] == "-s"@ && gives_size(a[7], w as nat, h as nat)
            &&& sets(a, 8, "-r"@, decimal(fps as nat))
            &&& sets(a, 10, "-i"@, "-"@)
            &&& sets(a, 14, "-c:v"@, encoder)
            &&& sets(a, a.len() - 2, "-y"@, sink)
        }),
{
    let a = libva_line(encoder, w, h, fps, sink);
    let o = frame_options(w, h, fps, "-"@);
    assert(a.len() == 24);
    assert(a[2] == o[0] && a[3] == o[1] && a[6] == o[4] && a[7] == o[5] && a[8] == o[6] && a[9]
        == o[7] && a[10] == o[8] && a[11] == o[9]);
    assert("x"@ =~= seq!['x']) by {
        reveal_strlit("x");
    }
}

} // verus!
