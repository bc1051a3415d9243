//! Numbers and pictures: laws on whole numbers, canvases, colour planes, delays and rates.

use vstd::arithmetic::power2::pow2;
use vstd::prelude::*;
use crate::color::{
    chroma_grid, full_grid, half_grid, i420, interleaved, lemma_plane_len, luma_grid, nv12, plane,
    weighted, weights_of, Channel, Grid, Rgb,
};
use crate::elements::is_double;
use crate::h264::bit_rate;
use crate::images::{gif_delay, gif_of, gif_stream, png_of, png_stream};
use crate::number::{clamped_floor, rounded, unit_ratio, zoom_ratio, HUNDRED, Number, Ratio, TENTH};
use crate::video::{canvas_side, highest, widest, FrameView};

verus! {

// ---------------------------------------------------------------- numbers

proof fn lemma_fields(bits: u64, n: nat)
    requires
        n > 0,
        is_double(bits as nat, n),
    ensures
        crate::number::exponent_field(bits) == bits as int / 0x10_0000_0000_0000,
        crate::number::fraction_field(bits) == bits as int % 0x10_0000_0000_0000,
        !crate::number::sign_field(bits),
        !crate::number::is_nan(bits),
        1023 <= crate::number::exponent_field(bits) <= 1075,
        pow2(52) + crate::number::fraction_field(bits) == n * pow2(
            (1075 - crate::number::exponent_field(bits)) as nat,
        ),
{
    vstd::arithmetic::power2::lemma2_to64();
    vstd::arithmetic::power2::lemma2_to64_rest();
}

/// A double that is a whole number counts as that number, as a time and as a whole value, cut to
/// the largest one that there is.
pub proof fn law_whole_double(bits: u64, n: nat, max: nat)
    requires
        n > 0,
        n < 0x8_0000_0000_0000,
        is_double(bits as nat, n),
        bits as int / 0x10_0000_0000_0000 < 1075,
    ensures
        clamped_floor(Number::Double(bits), max) == if n > max {
            max
        } else {
            n
        },
        rounded(Number::Double(bits)) == n,
{
    vstd::arithmetic::power2::lemma2_to64();
    vstd::arithmetic::power2::lemma2_to64_rest();
    lemma_fields(bits, n);
    let e = crate::number::exponent_field(bits);
    let m = pow2(52) + crate::number::fraction_field(bits);
    let p = pow2((1075 - e) as nat);
    vstd::arithmetic::power2::lemma_pow2_pos((1075 - e) as nat);
    assert(m / (p as int) == n) by (nonlinear_arith)
        requires
            m == n * p,
            p > 0,
    ;
    vstd::arithmetic::power2::lemma_pow2_unfold((1076 - e) as nat);
    let q = pow2((1076 - e) as nat);
    assert(q == 2 * p);
    assert((2 * m + p) / (q as int) == n) by (nonlinear_arith)
        requires
            m == n * p,
            q == 2 * p,
            p > 0,
    ;
}

/// Whole numbers count as they are: a time below 0 is 0, and one above the largest is the largest.
pub proof fn law_whole_number(i: i64, max: nat)
    ensures
        rounded(Number::Int(i)) == i,
        i <= 0 ==> clamped_floor(Number::Int(i), max) == 0,
        0 <= i <= max ==> clamped_floor(Number::Int(i), max) == i,
        i > max ==> clamped_floor(Number::Int(i), max) == max,
{
}

/// An opacity stays between 0 and 100 percent, and keeps its value there.
pub proof fn law_opacity(i: i64, bits: u64, n: nat)
    ensures
        0 <= i <= 100 ==> unit_ratio(Ratio { percent: Number::Int(i) }).percent == Number::Int(i),
        i < 0 ==> unit_ratio(Ratio { percent: Number::Int(i) }).percent == Number::Int(0),
        i > 100 ==> unit_ratio(Ratio { percent: Number::Int(i) }).percent == Number::Int(100),
        0 < n <= 100 && is_double(bits as nat, n) ==> unit_ratio(
            Ratio { percent: Number::Double(bits) },
        ).percent == Number::Double(bits),
        n > 100 && is_double(bits as nat, n) ==> unit_ratio(
            Ratio { percent: Number::Double(bits) },
        ).percent == Number::Int(100),
{
    if n > 0 && is_double(bits as nat, n) {
        lemma_fields(bits, n);
        lemma_hundred(bits, n);
    }
}

proof fn lemma_hundred(bits: u64, n: nat)
    requires
        n > 0,
        is_double(bits as nat, n),
    ensures
        bits <= HUNDRED <==> n <= 100,
{
    vstd::arithmetic::power2::lemma2_to64();
    vstd::arithmetic::power2::lemma2_to64_rest();
    let e = bits as int / 0x10_0000_0000_0000;
    let f = bits as int % 0x10_0000_0000_0000;
    let s = 0x10_0000_0000_0000 + f;
    let k = (1075 - e) as nat;
    assert(HUNDRED as int / 0x10_0000_0000_0000 == 1029);
    assert(HUNDRED as int % 0x10_0000_0000_0000 == 0x9_0000_0000_0000);
    assert(s == n * pow2(k));
    if e == 1029 {
        assert(k == 46);
        assert(s == n * 0x4000_0000_0000);
    } else if e < 1029 {
        vstd::arithmetic::power2::lemma_pow2_strictly_increases(46, k);
        if n > 100 {
            assert(n * pow2(k) >= 101 * 0x8000_0000_0000) by (nonlinear_arith)
                requires
                    n >= 101,
                    pow2(k) >= 0x8000_0000_0000,
            ;
            assert(false);
        }
    } else {
        vstd::arithmetic::power2::lemma_pow2_strictly_increases(k, 46);
        vstd::arithmetic::power2::lemma_pow2_pos(k);
        if n <= 100 {
            assert(n * pow2(k) <= 100 * 0x2000_0000_0000) by (nonlinear_arith)
                requires
                    n <= 100,
                    pow2(k) <= 0x2000_0000_0000,
            ;
            assert(false);
        }
    }
}

/// A zoom keeps its value from one percent on; nothing and less is a tenth of a percent.
pub proof fn law_zoom(i: i64, bits: u64, n: nat)
    ensures
        i >= 1 ==> zoom_ratio(Ratio { percent: Number::Int(i) }).percent == Number::Int(i),
        i < 1 ==> zoom_ratio(Ratio { percent: Number::Int(i) }).percent == Number::Double(TENTH),
        n > 0 && is_double(bits as nat, n) ==> zoom_ratio(
            Ratio { percent: Number::Double(bits) },
        ).percent == Number::Double(bits),
{
    if n > 0 && is_double(bits as nat, n) {
        lemma_fields(bits, n);
        assert(bits as int >= 1023 * 0x10_0000_0000_0000);
    }
}

// ---------------------------------------------------------------- canvas

/// A side of the canvas has room for the frame: an even number of pixels, at least 16, and no more
/// than one pixel more than is needed.
pub proof fn law_canvas_side(n: usize)
    ensures
        canvas_side(n) % 2 == 0,
        canvas_side(n) >= n,
        canvas_side(n) >= 16,
        n >= 16 ==> canvas_side(n) <= n + 1,
        n < 16 ==> canvas_side(n) == 16,
{
}

/// A frame of a GIF is shown for the number of hundredths of a second that comes nearest to the
/// frame rate from below, and for at least one.
pub proof fn law_gif_delay(fps: u32)
    requires
        fps >= 1,
    ensures
        gif_delay(fps) >= 1,
        fps <= 100 ==> gif_delay(fps) * fps <= 100 < (gif_delay(fps) + 1) * fps,
        fps > 100 ==> gif_delay(fps) == 1,
{
    let f = fps as int;
    let a = 1000int / f;
    let d = a / 10;
    assert(a * f <= 1000 < (a + 1) * f && a >= 0) by (nonlinear_arith)
        requires
            f >= 1,
            a == 1000int / f,
    ;
    assert(10 * d <= a < 10 * d + 10);
    assert(d * f <= 100) by (nonlinear_arith)
        requires
            10 * d <= a,
            a * f <= 1000,
            f >= 1,
    ;
    assert((d + 1) * f > 100) by (nonlinear_arith)
        requires
            a + 1 <= 10 * d + 10,
            1000 < (a + 1) * f,
            f >= 1,
    ;
    if f <= 100 {
        assert(d >= 1) by (nonlinear_arith)
            requires
                (d + 1) * f > 100,
                f <= 100,
                d >= 0,
        ;
    } else {
        assert(d < 1) by (nonlinear_arith)
            requires
                d * f <= 100,
                f > 100,
        ;
    }
}

/// A video has a twentieth of a bit for each pixel of each second, but at least 120 kbit/s and at
/// most 20 Mbit/s.
pub proof fn law_bit_rate(w: int, h: int, fps: u32)
    requires
        w >= 0,
        h >= 0,
    ensures
        120_000 <= bit_rate(w, h, fps) <= 20_000_000,
        bit_rate(w, h, fps) > 120_000 ==> bit_rate(w, h, fps) * 20 <= w * h * fps,
        bit_rate(w, h, fps) < 20_000_000 ==> w * h * fps < (bit_rate(w, h, fps) + 1) * 20,
{
}

/// A stream of H.264 starts empty, with sides that are even and no more than one pixel longer than
/// those of the picture, its bit rate for that size, and a key frame in every second.
pub proof fn law_stream_opened(width: usize, height: usize, fps: u32)
    requires
        crate::h264::codable(width, height),
    ensures
        ({
            let v = crate::h264::opened(width, height, fps);
            &&& v.w % 2 == 0 && width <= v.w <= width + 1
            &&& v.h % 2 == 0 && height <= v.h <= height + 1
            &&& v.fps == fps && v.gop == fps
            &&& v.bps == bit_rate(v.w as int, v.h as int, fps)
            &&& v.sizes.len() == 0 && v.keyframes.len() == 0 && v.sps is None && v.pps is None
        }),
{
    assert(crate::h264::even_up(width) * crate::h264::even_up(height) >= 0) by (nonlinear_arith)
        requires
            crate::h264::even_up(width) >= 0,
            crate::h264::even_up(height) >= 0,
    ;
    law_bit_rate(crate::h264::even_up(width), crate::h264::even_up(height), fps);
}

/// A picture for AV1 has sides of whole superblocks, no more of them than are needed; there is a
/// key frame in every second, or every frame is one.
pub proof fn law_superblocks(n: usize, fps: u32)
    ensures
        crate::av1::superblocks(n) % 64 == 0,
        crate::av1::superblocks(n) >= n,
        crate::av1::superblocks(n) >= 64,
        n > 64 ==> crate::av1::superblocks(n) < n + 64,
        crate::av1::key_interval(fps, true) == 1,
        crate::av1::key_interval(fps, false) == fps,
{
}

/// A PNG is made of the pixels of the frame, as wide and as high as the frame is.
pub proof fn law_png_of_frame(f: FrameView, w: u32, h: u32, json: Seq<char>)
    requires
        f.width == w,
        f.height == h,
    ensures
        png_of(f, json) == png_stream(w, h, "candy-meta"@, json, f.rgba),
{
}

proof fn lemma_widest(s: Seq<FrameView>, n: usize)
    requires
        forall|i: int| 0 <= i < s.len() ==> (#[trigger] s[i]).width <= n,
        exists|i: int| 0 <= i < s.len() && (#[trigger] s[i]).width == n,
    ensures
        widest(s) == n,
    decreases s.len(),
{
    let t = s.drop_last();
    lemma_widest_below(t, n);
    assert(s[s.len() - 1] == s.last());
    if s.last().width < n {
        let i = choose|i: int| 0 <= i < s.len() && (#[trigger] s[i]).width == n;
        assert(t[i].width == n);
        lemma_widest(t, n);
    }
}

proof fn lemma_widest_below(s: Seq<FrameView>, n: usize)
    requires
        forall|i: int| 0 <= i < s.len() ==> (#[trigger] s[i]).width <= n,
    ensures
        widest(s) <= n,
    decreases s.len(),
{
    if s.len() > 0 {
        assert(s[s.len() - 1] == s.last());
        lemma_widest_below(s.drop_last(), n);
    }
}

proof fn lemma_highest(s: Seq<FrameView>, n: usize)
    requires
        forall|i: int| 0 <= i < s.len() ==> (#[trigger] s[i]).height <= n,
        exists|i: int| 0 <= i < s.len() && (#[trigger] s[i]).height == n,
    ensures
        highest(s) == n,
    decreases s.len(),
{
    let t = s.drop_last();
    lemma_highest_below(t, n);
    assert(s[s.len() - 1] == s.last());
    if s.last().height < n {
        let i = choose|i: int| 0 <= i < s.len() && (#[trigger] s[i]).height == n;
        assert(t[i].height == n);
        lemma_highest(t, n);
    }
}

proof fn lemma_highest_below(s: Seq<FrameView>, n: usize)
    requires
        forall|i: int| 0 <= i < s.len() ==> (#[trigger] s[i]).height <= n,
    ensures
        highest(s) <= n,
    decreases s.len(),
{
    if s.len() > 0 {
        assert(s[s.len() - 1] == s.last());
        lemma_highest_below(s.drop_last(), n);
    }
}

/// A GIF is as wide as the widest frame and as high as the highest one, rounded up to even sides of
/// at least 16 pixels, and shows every frame on a canvas of that size, in order, each for the time
/// of the frame rate.
pub proof fn law_gif_of_frames(
    s: Seq<FrameView>,
    fps: u32,
    json: Seq<char>,
    width: usize,
    height: usize,
    w: u16,
    h: u16,
    delay: u16,
)
    requires
        1 <= fps <= 100,
        forall|i: int| 0 <= i < s.len() ==> (#[trigger] s[i]).width <= width,
        exists|i: int| 0 <= i < s.len() && (#[trigger] s[i]).width == width,
        forall|i: int| 0 <= i < s.len() ==> (#[trigger] s[i]).height <= height,
        exists|i: int| 0 <= i < s.len() && (#[trigger] s[i]).height == height,
        16 <= width <= w <= width + 1 && w % 2 == 0,
        16 <= height <= h <= height + 1 && h % 2 == 0,
        delay * fps <= 100 < (delay + 1) * fps,
    ensures
        gif_of(s, fps, json) == gif_stream(
            w,
            h,
            delay,
            10,
            crate::bytes::text(json),
            s.map_values(|f: FrameView| crate::video::composed(f, w as usize, h as usize).rgba),
        ),
{
    lemma_widest(s, width);
    lemma_highest(s, height);
    law_gif_delay(fps);
    let d = gif_delay(fps) as int;
    let f = fps as int;
    let e = delay as int;
    assert(d == e) by (nonlinear_arith)
        requires
            d * f <= 100 < (d + 1) * f,
            e * f <= 100 < (e + 1) * f,
            f >= 1,
    ;
    assert(crate::images::canvases(s, w, h) =~= s.map_values(
        |f: FrameView| crate::video::composed(f, w as usize, h as usize).rgba,
    ));
}

// ---------------------------------------------------------------- planes

proof fn lemma_plane_at(f: FrameView, g: Grid, w: nat, h: nat, x: int, y: int)
    requires
        0 <= x < w,
        0 <= y < h,
    ensures
        plane(f, g, w, h).len() == w * h,
        0 <= y * w + x < w * h,
        plane(f, g, w, h)[y * w + x] == g.at(f, x, y),
    decreases h,
{
    lemma_plane_len(f, g, w, h);
    lemma_plane_len(f, g, w, (h - 1) as nat);
    crate::color::lemma_pixel_inside(w as int, h as int, x, y);
    if y < h - 1 {
        lemma_plane_at(f, g, w, (h - 1) as nat, x, y);
    } else {
        assert(w * (h - 1) == y * w) by (nonlinear_arith)
            requires
                y == h - 1,
        ;
    }
}

/// The three colours of a pixel.
pub open spec fn pixel(f: FrameView, x: int, y: int) -> Rgb {
    Rgb {
        r: f.rgba[(y * f.width + x) * 4],
        g: f.rgba[(y * f.width + x) * 4 + 1],
        b: f.rgba[(y * f.width + x) * 4 + 2],
    }
}

/// The brightness of a picture for the encoder lies row by row, one byte for each pixel; what the
/// frame does not cover is 0.
pub proof fn law_luma_plane(f: FrameView, w: usize, h: usize, x: int, y: int)
    requires
        0 <= x < w,
        0 <= y < h,
    ensures
        ({
            let s = i420(f, w, h);
            &&& s.len() >= w * h
            &&& x < f.width && y < f.height ==> s[y * w + x] == weighted(
                weights_of(Channel::Luma),
                pixel(f, x, y),
            )
            &&& x >= f.width || y >= f.height ==> s[y * w + x] == 0
        }),
{
    let g = luma_grid(f, w, h);
    lemma_plane_at(f, g, w as nat, h as nat, x, y);
    lemma_plane_len(f, chroma_grid(f, Channel::Blue, false, w, h), (w / 2) as nat, (h / 2) as nat);
    lemma_plane_len(f, chroma_grid(f, Channel::Red, true, w, h), (w / 2) as nat, (h / 2) as nat);
}

/// The colours of a picture lie behind its brightness, first all blue ones, then all red ones, one
/// byte for every two by two pixels: blue is that of the first pixel, red that of the second one in
/// the first row.
pub proof fn law_chroma_planes(f: FrameView, w: usize, h: usize, x: int, y: int)
    requires
        0 <= x < w / 2,
        0 <= y < h / 2,
        w <= f.width,
        h <= f.height,
    ensures
        ({
            let s = i420(f, w, h);
            let blue = w * h + y * (w / 2) + x;
            let red = blue + (w / 2) * (h / 2);
            &&& s.len() == w * h + 2 * ((w / 2) * (h / 2))
            &&& s[blue] == weighted(weights_of(Channel::Blue), pixel(f, 2 * x, 2 * y))
            &&& s[red] == weighted(weights_of(Channel::Red), pixel(f, 2 * x + 1, 2 * y))
        }),
{
    let b = chroma_grid(f, Channel::Blue, false, w, h);
    let r = chroma_grid(f, Channel::Red, true, w, h);
    let (cw, ch) = ((w / 2) as nat, (h / 2) as nat);
    lemma_plane_len(f, luma_grid(f, w, h), w as nat, h as nat);
    lemma_plane_at(f, b, cw, ch, x, y);
    lemma_plane_at(f, r, cw, ch, x, y);
    let p = plane(f, luma_grid(f, w, h), w as nat, h as nat);
    let q = plane(f, b, cw, ch);
    let t = plane(f, r, cw, ch);
    assert(i420(f, w, h) == p + q + t);
    let i = y * cw + x;
    assert((p + q + t)[p.len() + i] == q[i]);
    assert((p + q + t)[p.len() + q.len() + i] == t[i]);
}

/// A picture for the driver has its brightness row by row, then blue and red by turns, one of each
/// for every two by two pixels, that of the first pixel.
pub proof fn law_driver_planes(f: FrameView, x: int, y: int)
    requires
        f.width % 2 == 0,
        f.height % 2 == 0,
    ensures
        ({
            let s = nv12(f);
            let (w, h) = (f.width as int, f.height as int);
            &&& 0 <= x < w && 0 <= y < h ==> s[y * w + x] == weighted(
                weights_of(Channel::StudioLuma),
                pixel(f, x, y),
            )
            &&& 0 <= x < w / 2 && 0 <= y < h / 2 ==> {
                let i = w * h + 2 * (y * (w / 2) + x);
                &&& s[i] == weighted(weights_of(Channel::StudioBlue), pixel(f, 2 * x, 2 * y))
                &&& s[i + 1] == weighted(weights_of(Channel::StudioRed), pixel(f, 2 * x, 2 * y))
            }
        }),
{
    let (w, h) = (f.width as nat, f.height as nat);
    let p = plane(f, full_grid(f, Channel::StudioLuma), w, h);
    let a = plane(f, half_grid(f, Channel::StudioBlue), w / 2, h / 2);
    let b = plane(f, half_grid(f, Channel::StudioRed), w / 2, h / 2);
    lemma_plane_len(f, full_grid(f, Channel::StudioLuma), w, h);
    lemma_plane_len(f, half_grid(f, Channel::StudioBlue), w / 2, h / 2);
    lemma_plane_len(f, half_grid(f, Channel::StudioRed), w / 2, h / 2);
    assert(nv12(f) == p + interleaved(a, b));
    if 0 <= x < w && 0 <= y < h {
        lemma_plane_at(f, full_grid(f, Channel::StudioLuma), w, h, x, y);
    }
    if 0 <= x < w / 2 && 0 <= y < h / 2 {
        lemma_plane_at(f, half_grid(f, Channel::StudioBlue), w / 2, h / 2, x, y);
        lemma_plane_at(f, half_grid(f, Channel::StudioRed), w / 2, h / 2, x, y);
        let k = y * (w / 2) + x;
        let i = 2 * k;
        assert(i % 2 == 0 && i / 2 == k && (i + 1) % 2 == 1 && (i + 1) / 2 == k);
        assert(interleaved(a, b)[i] == a[k]);
        assert(interleaved(a, b)[i + 1] == b[k]);
        assert(nv12(f)[w * h + i] == interleaved(a, b)[i]);
    }
}

} // verus!
