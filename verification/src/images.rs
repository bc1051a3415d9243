//! Animated GIFs, still PNGs and raw drafts.

use gif::{Encoder, Extension, Frame, Repeat};
use vstd::prelude::*;
use vstd::string::*;
use crate::bytes::{holds_piece, le_bytes, low32, push_all, push_le, text, views, wrap32};
use crate::diag::{CandyError, ErrorView};
use crate::meta::PrivateMeta;
use crate::text::join2;
use crate::video::{
    canvas_side, compose, composed, frame_views, highest, largest, pad_side, widest, FrameView,
    RenderedFrame,
};

verus! {

// ---------------------------------------------------------------- GIF

/// The step at which writing a GIF failed.
#[derive(Debug, Clone, Copy, PartialEq, Eq, Structural)]
pub enum GifStep {
    Start,
    Repeat,
    Comment,
    Frame,
}

/// The GIF file that the `gif` crate makes of frames: its size, the time each frame is shown, a
/// comment, and the RGBA bytes of each frame, quantized at the given speed.
pub uninterp spec fn gif_stream(
    width: u16,
    height: u16,
    delay: u16,
    speed: i32,
    comment: Seq<u8>,
    frames: Seq<Seq<u8>>,
) -> Seq<u8>;

/// Bytes cut into blocks of at most 255, each with its length in front of it.
pub open spec fn sub_blocks(s: Seq<u8>) -> Seq<u8>
    decreases s.len(),
{
    if s.len() == 0 {
        Seq::empty()
    } else if s.len() <= 255 {
        seq![s.len() as u8] + s
    } else {
        seq![255u8] + s.take(255) + sub_blocks(s.skip(255))
    }
}

/// A comment as it stands in a GIF file.
pub open spec fn gif_comment(s: Seq<u8>) -> Seq<u8> {
    seq![0x21u8, 0xfeu8] + sub_blocks(s) + seq![0u8]
}

/// Calls `gif::Encoder::new`, `set_repeat`, `write_raw_extension` with the comment, then
/// `gif::Frame::from_rgba_speed` and `write_frame` for each frame, and `into_inner`. The file is
/// a function of the arguments, and the comment stands in it as one extension block. Writing into
/// a `Vec` succeeds: each frame has as many bytes as its sides ask for, and a palette of at most
/// 256 colours. Want of memory is left aside.
#[verifier::external_body]
pub(crate) fn write_gif_stream(
    width: u16,
    height: u16,
    delay: u16,
    speed: i32,
    comment: &[u8],
    frames: Vec<Vec<u8>>,
) -> (r: Result<Vec<u8>, (GifStep, String)>)
    requires
        1 <= speed <= 30,
        forall|i: int|
            0 <= i < frames@.len() ==> (#[trigger] frames@[i])@.len() == width * height * 4,
    ensures
        r is Ok,
        r matches Ok(v) ==> v@ == gif_stream(
            width,
            height,
            delay,
            speed,
            comment@,
            views(frames@),
        ) && holds_piece(v@, gif_comment(comment@)),
{
    let mut out = Encoder::new(Vec::new(), width, height, &[])
        .map_err(|e| (GifStep::Start, e.to_string()))?;
    out.set_repeat(Repeat::Infinite).map_err(|e| (GifStep::Repeat, e.to_string()))?;
    out.write_raw_extension(Extension::Comment.into(), &[comment])
        .map_err(|e| (GifStep::Comment, e.to_string()))?;
    for mut rgba in frames {
        let mut frame = Frame::from_rgba_speed(width, height, &mut rgba, speed);
        frame.delay = delay;
        out.write_frame(&frame).map_err(|e| (GifStep::Frame, e.to_string()))?;
    }
    out.into_inner().map_err(|e| (GifStep::Frame, e.to_string()))
}

/// What is told of a step that failed.
pub open spec fn gif_trouble(step: GifStep) -> Seq<char> {
    match step {
        GifStep::Start => "gif encoder init failed: "@,
        GifStep::Repeat => "gif repeat failed: "@,
        GifStep::Comment => "gif comment extension failed: "@,
        GifStep::Frame => "gif frame encode failed: "@,
    }
}

fn trouble_of(step: GifStep) -> (r: &'static str)
    ensures
        r@ == gif_trouble(step),
{
    match step {
        GifStep::Start => "gif encoder init failed: ",
        GifStep::Repeat => "gif repeat failed: ",
        GifStep::Comment => "gif comment extension failed: ",
        GifStep::Frame => "gif frame encode failed: ",
    }
}

/// How long a frame is shown, in hundredths of a second, at least one.
pub open spec fn gif_delay(fps: u32) -> u16 {
    let d = 1000int / (fps as int) / 10;
    if d < 1 {
        1
    } else {
        d as u16
    }
}

fn find_gif_delay(fps: u32) -> (r: u16)
    requires
        fps >= 1,
    ensures
        r == gif_delay(fps),
{
    let d: u32 = 1000 / fps / 10;
    proof {
        assert(1000int / (fps as int) <= 1000) by (nonlinear_arith)
            requires
                fps >= 1,
        ;
    }
    if d < 1 {
        1
    } else {
        d as u16
    }
}

/// A side of a GIF: that of the canvas, as far as it fits 16 bits.
pub open spec fn gif_side(n: usize) -> u16 {
    (canvas_side(if n < 1 {
        1
    } else {
        n
    }) % 0x1_0000) as u16
}

fn find_gif_side(n: usize) -> (r: u16)
    requires
        n < usize::MAX,
    ensures
        r == gif_side(n),
{
    let side: usize = pad_side(if n < 1 {
        1
    } else {
        n
    });
    let wide: u64 = side as u64;
    (wide % 0x1_0000) as u16
}

/// The pixels of each frame on a canvas of the given size.
pub open spec fn canvases(s: Seq<FrameView>, w: u16, h: u16) -> Seq<Seq<u8>> {
    s.map_values(|f: FrameView| composed(f, w as usize, h as usize).rgba)
}

/// Whether the frames can be written.
pub open spec fn writable(s: Seq<FrameView>) -> bool {
    &&& widest(s) < usize::MAX && highest(s) < usize::MAX
    &&& forall|i: int| 0 <= i < s.len() ==> (#[trigger] s[i]).full()
}

fn compose_all(frames: &[RenderedFrame], w: u16, h: u16) -> (r: Vec<Vec<u8>>)
    requires
        forall|i: int| 0 <= i < frames@.len() ==> (#[trigger] frames@[i])@.full(),
    ensures
        views(r@) == canvases(frame_views(frames@), w, h),
        forall|i: int| 0 <= i < r@.len() ==> (#[trigger] r@[i])@.len() == w * h * 4,
{
    let ghost s = frame_views(frames@);
    let mut r: Vec<Vec<u8>> = Vec::new();
    let mut i: usize = 0;
    while i < frames.len()
        invariant
            i <= frames@.len(),
            s == frame_views(frames@),
            forall|k: int| 0 <= k < frames@.len() ==> (#[trigger] frames@[k])@.full(),
            r@.len() == i,
            forall|k: int|
                0 <= k < i ==> (#[trigger] r@[k])@ == canvases(s, w, h)[k] && r@[k]@.len() == w * h
                    * 4,
        decreases frames.len() - i,
    {
        assert(s[i as int] == frames@[i as int]@);
        let canvas = compose(&frames[i], w as usize, h as usize);
        r.push(canvas.rgba);
        i += 1;
    }
    assert(views(r@) =~= canvases(s, w, h));
    r
}

/// The GIF file of frames.
pub open spec fn gif_of(s: Seq<FrameView>, fps: u32, json: Seq<char>) -> Seq<u8> {
    let (w, h) = (gif_side(widest(s)), gif_side(highest(s)));
    gif_stream(w, h, gif_delay(fps), 10, text(json), canvases(s, w, h))
}

/// Makes an animated GIF of frames, all of them on one canvas that has room for the largest. The
/// private metadata stands in it as a comment.
pub fn write_gif(frames: &[RenderedFrame], fps: u32, private_metadata: &PrivateMeta) -> (r: Result<
    Vec<u8>,
    CandyError,
>)
    requires
        fps >= 1 ==> writable(frame_views(frames@)),
    ensures
        ({
            let s = frame_views(frames@);
            let (w, h) = (gif_side(widest(s)), gif_side(highest(s)));
            if s.len() == 0 {
                r matches Err(e) && e@ == ErrorView::Encode("cannot write an empty GIF"@)
            } else if fps < 1 {
                r matches Err(e) && e@ == ErrorView::Encode("fps must be >= 1"@)
            } else {
                r matches Ok(v) && v@ == gif_stream(
                    w,
                    h,
                    gif_delay(fps),
                    10,
                    text(private_metadata@.json()),
                    canvases(s, w, h),
                ) && v@ == gif_of(s, fps, private_metadata@.json()) && holds_piece(
                    v@,
                    gif_comment(text(private_metadata@.json())),
                )
            }
        }),
{
    if frames.len() == 0 {
        return Err(CandyError::Encode("cannot write an empty GIF".to_owned()));
    }
    if fps < 1 {
        return Err(CandyError::Encode("fps must be >= 1".to_owned()));
    }
    let (max_w, max_h): (usize, usize) = largest(frames);
    let w: u16 = find_gif_side(max_w);
    let h: u16 = find_gif_side(max_h);
    proof {
        assert forall|i: int| 0 <= i < frames@.len() implies (#[trigger] frames@[i])@.full() by {
            assert(frame_views(frames@)[i] == frames@[i]@);
        }
    }
    let canvas = compose_all(frames, w, h);
    let json = private_metadata.to_json();
    match write_gif_stream(w, h, find_gif_delay(fps), 10, json.as_str().as_bytes(), canvas) {
        Ok(v) => Ok(v),
        Err((step, why)) => Err(CandyError::Encode(join2(trouble_of(step), why.as_str()))),
    }
}

// ---------------------------------------------------------------- PNG

/// The step at which writing a PNG failed.
#[derive(Debug, Clone, Copy, PartialEq, Eq, Structural)]
pub enum PngStep {
    Header,
    Text,
    Data,
}

/// The PNG file that the `png` crate makes of RGBA bytes, with a text under a keyword.
pub uninterp spec fn png_stream(
    width: u32,
    height: u32,
    keyword: Seq<char>,
    note: Seq<char>,
    rgba: Seq<u8>,
) -> Seq<u8>;

/// Whether every character fits one byte.
pub open spec fn is_latin(s: Seq<char>) -> bool {
    forall|i: int| 0 <= i < s.len() ==> (#[trigger] s[i]) as u32 <= 255
}

/// A text with one byte for each character.
pub open spec fn latin(s: Seq<char>) -> Seq<u8> {
    s.map_values(|c: char| c as u8)
}

/// A text under a keyword as it stands in a PNG file.
pub open spec fn png_note(keyword: Seq<char>, note: Seq<char>) -> Seq<u8> {
    text("tEXt"@) + latin(keyword) + seq![0u8] + latin(note)
}

/// Whether a picture of this size with these bytes and this text can be written.
pub open spec fn png_fits(width: u32, height: u32, note: Seq<char>, rgba: Seq<u8>) -> bool {
    width > 0 && height > 0 && rgba.len() == width * height * 4 && is_latin(note)
}

/// Calls `png::Encoder::new` for RGBA with 8 bits each, `write_header`, `write_text_chunk` with a
/// `TEXtChunk`, `write_image_data` and `finish`. The file is a function of the arguments and
/// holds the text behind its keyword. It is refused if and only if a side is 0, there are too
/// few or too many bytes, or a character of the text does not fit one byte.
#[verifier::external_body]
pub(crate) fn write_png_stream(
    width: u32,
    height: u32,
    keyword: &str,
    note: &str,
    rgba: &[u8],
) -> (r: Result<Vec<u8>, (PngStep, String)>)
    requires
        is_latin(keyword@),
        1 <= keyword@.len() <= 79,
        width * height * 4 <= usize::MAX,
    ensures
        r is Ok == png_fits(width, height, note@, rgba@),
        r matches Ok(v) ==> v@ == png_stream(width, height, keyword@, note@, rgba@)
            && holds_piece(v@, png_note(keyword@, note@)),
{
    let mut out = Vec::new();
    let mut encoder = png::Encoder::new(&mut out, width, height);
    encoder.set_color(png::ColorType::Rgba);
    encoder.set_depth(png::BitDepth::Eight);
    let mut writer = encoder.write_header().map_err(|e| (PngStep::Header, e.to_string()))?;
    let chunk = png::text_metadata::TEXtChunk::new(keyword, note);
    writer.write_text_chunk(&chunk).map_err(|e| (PngStep::Text, e.to_string()))?;
    writer.write_image_data(rgba).map_err(|e| (PngStep::Data, e.to_string()))?;
    writer.finish().map_err(|e| (PngStep::Data, e.to_string()))?;
    Ok(out)
}

/// What is told of a step that failed.
pub open spec fn png_trouble(step: PngStep) -> Seq<char> {
    match step {
        PngStep::Header => "png header encode failed: "@,
        PngStep::Text => "png text chunk failed: "@,
        PngStep::Data => "png data encode failed: "@,
    }
}

fn png_trouble_of(step: PngStep) -> (r: &'static str)
    ensures
        r@ == png_trouble(step),
{
    match step {
        PngStep::Header => "png header encode failed: ",
        PngStep::Text => "png text chunk failed: ",
        PngStep::Data => "png data encode failed: ",
    }
}

/// The PNG file of a frame.
pub open spec fn png_of(f: FrameView, json: Seq<char>) -> Seq<u8> {
    png_stream(
        wrap32(f.width as int) as u32,
        wrap32(f.height as int) as u32,
        "candy-meta"@,
        json,
        f.rgba,
    )
}

/// Makes a PNG of a frame. The private metadata stands in it as a text.
pub fn write_png(frame: &RenderedFrame, private_metadata: &PrivateMeta) -> (r: Result<
    Vec<u8>,
    CandyError,
>)
    requires
        wrap32(frame@.width as int) * wrap32(frame@.height as int) * 4 <= usize::MAX,
    ensures
        ({
            let w = wrap32(frame@.width as int) as u32;
            let h = wrap32(frame@.height as int) as u32;
            let note = private_metadata@.json();
            match r {
                Ok(v) => png_fits(w, h, note, frame@.rgba) && v@ == png_stream(
                    w,
                    h,
                    "candy-meta"@,
                    note,
                    frame@.rgba,
                ) && v@ == png_of(frame@, note) && holds_piece(v@, png_note("candy-meta"@, note)),
                Err(e) => !png_fits(w, h, note, frame@.rgba) && exists|step: PngStep,
                    why: Seq<char>|
                    e@ == ErrorView::Encode(#[trigger] (png_trouble(step) + why)),
            }
        }),
{
    let json = private_metadata.to_json();
    let w: u32 = low32(frame.width);
    let h: u32 = low32(frame.height);
    proof {
        reveal_strlit("candy-meta");
    }
    match write_png_stream(w, h, "candy-meta", json.as_str(), frame.rgba.as_slice()) {
        Ok(v) => Ok(v),
        Err((step, why)) => {
            let message = join2(png_trouble_of(step), why.as_str());
            assert(message@ == png_trouble(step) + why@);
            Err(CandyError::Encode(message))
        },
    }
}

// ---------------------------------------------------------------- drafts

/// A number in four bytes, least significant first.
pub open spec fn le32(n: int) -> Seq<u8> {
    le_bytes(wrap32(n), 4)
}

/// The pixels of all frames, one after the other.
pub open spec fn pixels(s: Seq<FrameView>) -> Seq<u8>
    decreases s.len(),
{
    if s.len() == 0 {
        Seq::empty()
    } else {
        pixels(s.drop_last()) + s.last().rgba
    }
}

/// A raw bundle of frames: how many there are, the size of the first one, then all pixels.
pub open spec fn draft(s: Seq<FrameView>) -> Seq<u8> {
    le32(s.len() as int) + le32(s[0].width as int) + le32(s[0].height as int) + pixels(s)
}

/// Makes a raw bundle of frames.
pub fn write_rgba_draft(frames: &[RenderedFrame]) -> (r: Result<Vec<u8>, CandyError>)
    ensures
        match r {
            Ok(v) => frames@.len() > 0 && v@ == draft(frame_views(frames@)),
            Err(e) => frames@.len() == 0 && e@ == ErrorView::Encode(
                "cannot write an empty RGBA draft (no frames were produced)"@,
            ),
        },
{
    if frames.len() == 0 {
        return Err(
            CandyError::Encode(
                "cannot write an empty RGBA draft (no frames were produced)".to_owned(),
            ),
        );
    }
    let ghost s = frame_views(frames@);
    assert(s[0] == frames@[0]@);
    let mut out: Vec<u8> = Vec::new();
    push_le(&mut out, low32(frames.len()) as u64, 4);
    push_le(&mut out, low32(frames[0].width) as u64, 4);
    push_le(&mut out, low32(frames[0].height) as u64, 4);
    let ghost head = out@;
    let mut i: usize = 0;
    assert(s.take(0) =~= Seq::<FrameView>::empty());
    assert(out@ =~= head + pixels(s.take(0)));
    while i < frames.len()
        invariant
            i <= frames@.len(),
            s == frame_views(frames@),
            out@ == head + pixels(s.take(i as int)),
        decreases frames.len() - i,
    {
        assert(s.take(i + 1).drop_last() =~= s.take(i as int));
        assert(s[i as int] == frames@[i as int]@);
        push_all(&mut out, frames[i].rgba.as_slice());
        assert(out@ =~= head + pixels(s.take(i + 1)));
        i += 1;
    }
    assert(s.take(s.len() as int) =~= s);
    assert(head =~= le32(s.len() as int) + le32(s[0].width as int) + le32(s[0].height as int));
    Ok(out)
}

} // verus!
