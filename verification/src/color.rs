//! From RGBA pixels to the luma and chroma planes that video codecs take.
//!
//! The conversion is that of single-precision arithmetic. Its numbers are held here as whole
//! multiples of 2^-27, rounded after each operation to 24 significant bits.

use vstd::prelude::*;
use crate::video::{FrameView, RenderedFrame};

verus! {

/// One, as a multiple of 2^-27.
pub const ONE: i64 = 0x800_0000;

/// What is below the unit in the last place: the smallest power of two, from `u` on, of which
/// 2^24 are more than `x`.
pub open spec fn unit(x: nat, u: nat) -> nat
    decreases
            (if x >= u {
                x - u
            } else {
                0
            }),
{
    if u == 0 || x < 0x100_0000 * u {
        u
    } else {
        unit(x, 2 * u)
    }
}

/// A number rounded to the nearest one with 24 significant bits, to an even one where two are
/// equally near.
pub open spec fn single(x: int) -> int {
    let m = if x < 0 {
        -x
    } else {
        x
    };
    let u = unit(m as nat, 1) as int;
    let q = m / u;
    let r = m % u;
    let rounded = if 2 * r > u || (2 * r == u && q % 2 == 1) {
        (q + 1) * u
    } else {
        q * u
    };
    if x < 0 {
        -rounded
    } else {
        rounded
    }
}

/// A number cut down to a byte.
pub open spec fn byte_of(x: int) -> u8 {
    if x <= 0 {
        0
    } else if x >= 255 * ONE {
        255
    } else {
        (x / (ONE as int)) as u8
    }
}

/// A colour.
#[derive(Debug, Clone, Copy, PartialEq, Eq, Structural)]
pub struct Rgb {
    pub r: u8,
    pub g: u8,
    pub b: u8,
}

/// The weights of a colour's parts and what is added to their sum.
#[derive(Debug, Clone, Copy, PartialEq, Eq, Structural)]
pub struct Weights {
    pub r: i64,
    pub g: i64,
    pub b: i64,
    pub offset: i64,
}

/// The weighted sum of a colour's parts, from left to right, as a byte.
pub open spec fn weighted(w: Weights, c: Rgb) -> u8 {
    let s = single(single(single(w.r * c.r) + single(w.g * c.g)) + single(w.b * c.b));
    byte_of(single(s + w.offset))
}

/// What is made of a colour.
#[derive(Debug, Clone, Copy, PartialEq, Eq, Structural)]
pub enum Channel {
    /// 0.299 r + 0.587 g + 0.114 b.
    Luma,
    /// -0.169 r - 0.331 g + 0.5 b + 128.
    Blue,
    /// 0.5 r - 0.419 g - 0.081 b + 128.
    Red,
    /// 0.257 r + 0.504 g + 0.098 b + 16.
    StudioLuma,
    /// -0.148 r - 0.291 g + 0.439 b + 128.
    StudioBlue,
    /// 0.439 r - 0.368 g - 0.071 b + 128.
    StudioRed,
}

/// The weights of a channel: the single-precision numbers nearest to its factors.
pub open spec fn weights_of(c: Channel) -> Weights {
    match c {
        Channel::Luma => Weights { r: 40131100, g: 78785808, b: 15300821, offset: 0 },
        Channel::Blue => Weights {
            r: (-22682796) as i64,
            g: (-44426068) as i64,
            b: 67108864,
            offset: 17179869184,
        },
        Channel::Red => Weights {
            r: 67108864,
            g: (-56237228) as i64,
            b: (-10871636) as i64,
            offset: 17179869184,
        },
        Channel::StudioLuma => Weights {
            r: 34493956,
            g: 67645736,
            b: 13153337,
            offset: 2147483648,
        },
        Channel::StudioBlue => Weights {
            r: (-19864224) as i64,
            g: (-39057360) as i64,
            b: 58921584,
            offset: 17179869184,
        },
        Channel::StudioRed => Weights {
            r: 58921584,
            g: (-49392124) as i64,
            b: (-9529459) as i64,
            offset: 17179869184,
        },
    }
}

fn find_weights(c: Channel) -> (r: Weights)
    ensures
        r == weights_of(c),
        -0x800_0000 <= r.r <= 0x800_0000,
        -0x800_0000 <= r.g <= 0x800_0000,
        -0x800_0000 <= r.b <= 0x800_0000,
        0 <= r.offset <= 0x4_0000_0000,
{
    match c {
        Channel::Luma => Weights { r: 40131100, g: 78785808, b: 15300821, offset: 0 },
        Channel::Blue => Weights {
            r: -22682796,
            g: -44426068,
            b: 67108864,
            offset: 17179869184,
        },
        Channel::Red => Weights {
            r: 67108864,
            g: -56237228,
            b: -10871636,
            offset: 17179869184,
        },
        Channel::StudioLuma => Weights {
            r: 34493956,
            g: 67645736,
            b: 13153337,
            offset: 2147483648,
        },
        Channel::StudioBlue => Weights {
            r: -19864224,
            g: -39057360,
            b: 58921584,
            offset: 17179869184,
        },
        Channel::StudioRed => Weights {
            r: 58921584,
            g: -49392124,
            b: -9529459,
            offset: 17179869184,
        },
    }
}

fn round_single(x: i64) -> (r: i64)
    requires
        -0x100_0000_0000 <= x <= 0x100_0000_0000,
    ensures
        r == single(x as int),
        x - 0x2_0000 <= r <= x + 0x2_0000,
{
    let m: u64 = if x < 0 {
        (-x) as u64
    } else {
        x as u64
    };
    let mut u: u64 = 1;
    while m >= 0x100_0000 * u
        invariant
            1 <= u <= 0x2_0000,
            m <= 0x100_0000_0000,
            u > 1 ==> 0x80_0000 * u <= m,
            unit(m as nat, 1) == unit(m as nat, u as nat),
        decreases m - u,
    {
        u = u * 2;
    }
    let q: u64 = m / u;
    let rest: u64 = m % u;
    proof {
        assert(q * u + rest == m) by (nonlinear_arith)
            requires
                q == m / u,
                rest == m % u,
                u > 0,
        ;
        assert(q * u <= m && (q + 1) * u <= m + u) by (nonlinear_arith)
            requires
                q * u + rest == m,
                0 <= rest,
        ;
        assert(0 <= q * u) by (nonlinear_arith)
            requires
                q >= 0,
                u > 0,
        ;
        assert((q + 1) * u == q * u + u) by (nonlinear_arith);
    }
    let rounded: u64 = if 2 * rest > u || (2 * rest == u && q % 2 == 1) {
        (q + 1) * u
    } else {
        q * u
    };
    if x < 0 {
        -(rounded as i64)
    } else {
        rounded as i64
    }
}

/// The weighted sum of a colour's parts, as a byte.
pub fn channel_byte(channel: Channel, c: Rgb) -> (r: u8)
    ensures
        r == weighted(weights_of(channel), c),
{
    let w = find_weights(channel);
    proof {
        assert(-0x8_0000_0000 <= w.r * c.r <= 0x8_0000_0000) by (nonlinear_arith)
            requires
                -0x800_0000 <= w.r <= 0x800_0000,
                0 <= c.r <= 255,
        ;
        assert(-0x8_0000_0000 <= w.g * c.g <= 0x8_0000_0000) by (nonlinear_arith)
            requires
                -0x800_0000 <= w.g <= 0x800_0000,
                0 <= c.g <= 255,
        ;
        assert(-0x8_0000_0000 <= w.b * c.b <= 0x8_0000_0000) by (nonlinear_arith)
            requires
                -0x800_0000 <= w.b <= 0x800_0000,
                0 <= c.b <= 255,
        ;
    }
    let a: i64 = round_single(w.r * c.r as i64);
    let b: i64 = round_single(w.g * c.g as i64);
    let ab: i64 = round_single(a + b);
    let d: i64 = round_single(w.b * c.b as i64);
    let abd: i64 = round_single(ab + d);
    let s: i64 = round_single(abd + w.offset);
    if s <= 0 {
        0
    } else if s >= 255 * ONE {
        255
    } else {
        (s / ONE) as u8
    }
}

// ---------------------------------------------------------------- planes

/// The colour of a pixel.
pub open spec fn rgb_at(f: FrameView, x: int, y: int) -> Rgb {
    let o = (y * f.width + x) * 4;
    Rgb { r: f.rgba[o], g: f.rgba[o + 1], b: f.rgba[o + 2] }
}

fn read_rgb(f: &RenderedFrame, x: usize, y: usize) -> (r: Rgb)
    requires
        f@.full(),
        x < f@.width,
        y < f@.height,
    ensures
        r == rgb_at(f@, x as int, y as int),
{
    let w: usize = f.width;
    let total: usize = f.rgba.len();
    proof {
        assert(f@.width * f@.height * 4 <= total);
        lemma_pixel_inside(w as int, f@.height as int, x as int, y as int);
    }
    let o: usize = (y * w + x) * 4;
    Rgb { r: f.rgba[o], g: f.rgba[o + 1], b: f.rgba[o + 2] }
}

/// A pixel of an image lies inside its buffer.
pub proof fn lemma_pixel_inside(w: int, h: int, x: int, y: int)
    requires
        0 <= x < w,
        0 <= y < h,
    ensures
        0 <= y * w,
        0 <= y * w + x < w * h,
        (y * w + x) * 4 + 4 <= w * h * 4,
{
    assert(0 <= y * w && y * w + w <= w * h) by (nonlinear_arith)
        requires
            0 <= y < h,
            0 < w,
    ;
}

/// Which pixels a plane is made of: all of them, or in each direction every second one, in a
/// field of `cols` by `rows`. What lies outside of the field is 0.
#[derive(Debug, Clone, Copy, PartialEq, Eq, Structural)]
pub struct Grid {
    pub channel: Channel,
    pub halved: bool,
    /// In a halved plane, whether the second pixel of each pair is taken.
    pub second: bool,
    pub cols: usize,
    pub rows: usize,
}

impl Grid {
    /// Whether the field lies inside the image.
    pub open spec fn fits(self, f: FrameView) -> bool {
        if self.halved {
            2 * self.cols <= f.width && 2 * self.rows <= f.height
        } else {
            self.cols <= f.width && self.rows <= f.height
        }
    }

    /// The byte of the plane at column `x` and row `y`.
    pub open spec fn at(self, f: FrameView, x: int, y: int) -> u8 {
        if x >= self.cols || y >= self.rows {
            0
        } else if !self.halved {
            weighted(weights_of(self.channel), rgb_at(f, x, y))
        } else if self.second {
            weighted(weights_of(self.channel), rgb_at(f, 2 * x + 1, 2 * y))
        } else {
            weighted(weights_of(self.channel), rgb_at(f, 2 * x, 2 * y))
        }
    }
}

/// A plane of `w` by `h` bytes, row by row.
pub open spec fn plane(f: FrameView, g: Grid, w: nat, h: nat) -> Seq<u8>
    decreases h,
{
    if h == 0 {
        Seq::empty()
    } else {
        plane(f, g, w, (h - 1) as nat) + Seq::new(w, |x: int| g.at(f, x, h - 1))
    }
}

/// The length of a plane.
pub proof fn lemma_plane_len(f: FrameView, g: Grid, w: nat, h: nat)
    ensures
        plane(f, g, w, h).len() == w * h,
    decreases h,
{
    if h > 0 {
        lemma_plane_len(f, g, w, (h - 1) as nat);
        assert(w * h == w * (h - 1) + w) by (nonlinear_arith)
            requires
                h > 0,
        ;
    } else {
        assert(w * h == 0) by (nonlinear_arith)
            requires
                h == 0,
        ;
    }
}

fn grid_byte(f: &RenderedFrame, g: Grid, x: usize, y: usize) -> (r: u8)
    requires
        f@.full(),
        g.fits(f@),
    ensures
        r == g.at(f@, x as int, y as int),
{
    if x >= g.cols || y >= g.rows {
        0
    } else if !g.halved {
        channel_byte(g.channel, read_rgb(f, x, y))
    } else if g.second {
        channel_byte(g.channel, read_rgb(f, 2 * x + 1, 2 * y))
    } else {
        channel_byte(g.channel, read_rgb(f, 2 * x, 2 * y))
    }
}

/// Makes a plane of `w` by `h` bytes.
pub fn make_plane(f: &RenderedFrame, g: Grid, w: usize, h: usize) -> (r: Vec<u8>)
    requires
        f@.full(),
        g.fits(f@),
    ensures
        r@ == plane(f@, g, w as nat, h as nat),
{
    let mut r: Vec<u8> = Vec::new();
    let mut y: usize = 0;
    while y < h
        invariant
            f@.full(),
            g.fits(f@),
            y <= h,
            r@ == plane(f@, g, w as nat, y as nat),
        decreases h - y,
    {
        let ghost before = r@;
        let ghost row = Seq::new(w as nat, |x: int| g.at(f@, x, y as int));
        let mut x: usize = 0;
        assert(r@ =~= before + row.take(0));
        while x < w
            invariant
                f@.full(),
                g.fits(f@),
                x <= w,
                row == Seq::new(w as nat, |x: int| g.at(f@, x, y as int)),
                r@ == before + row.take(x as int),
            decreases w - x,
        {
            r.push(grid_byte(f, g, x, y));
            assert(r@ =~= before + row.take(x + 1));
            x += 1;
        }
        assert(row.take(w as int) =~= row);
        y += 1;
    }
    r
}

fn smaller(a: usize, b: usize) -> (r: usize)
    ensures
        r == (if a < b {
            a
        } else {
            b
        }),
{
    if a < b {
        a
    } else {
        b
    }
}

/// The smaller of two sizes.
pub open spec fn lesser(a: usize, b: usize) -> usize {
    if a < b {
        a
    } else {
        b
    }
}

/// The pixels that the luma of a picture of `w` by `h` is made of.
pub open spec fn luma_grid(f: FrameView, w: usize, h: usize) -> Grid {
    Grid {
        channel: Channel::Luma,
        halved: false,
        second: false,
        cols: lesser(f.width, w),
        rows: lesser(f.height, h),
    }
}

/// The pixels that a halved chroma plane of a picture of `w` by `h` is made of.
pub open spec fn chroma_grid(f: FrameView, channel: Channel, second: bool, w: usize, h: usize) -> Grid {
    Grid {
        channel,
        halved: true,
        second,
        cols: lesser(f.width, w) / 2,
        rows: lesser(f.height, h) / 2,
    }
}

/// The planes of a picture of `w` by `h` with halved chroma, one behind the other.
pub open spec fn i420(f: FrameView, w: usize, h: usize) -> Seq<u8> {
    plane(f, luma_grid(f, w, h), w as nat, h as nat) + plane(
        f,
        chroma_grid(f, Channel::Blue, false, w, h),
        (w / 2) as nat,
        (h / 2) as nat,
    ) + plane(f, chroma_grid(f, Channel::Red, true, w, h), (w / 2) as nat, (h / 2) as nat)
}

/// Makes the planes of a picture with halved chroma, one behind the other. What the frame does
/// not cover is 0.
pub fn rgba_to_i420_packed(f: &RenderedFrame, w: usize, h: usize) -> (r: Vec<u8>)
    requires
        f@.full(),
    ensures
        r@ == i420(f@, w, h),
        r@.len() == w * h + (w / 2) * (h / 2) + (w / 2) * (h / 2),
{
    let cols: usize = smaller(f.width, w);
    let rows: usize = smaller(f.height, h);
    let luma = Grid { channel: Channel::Luma, halved: false, second: false, cols, rows };
    let blue = Grid {
        channel: Channel::Blue,
        halved: true,
        second: false,
        cols: cols / 2,
        rows: rows / 2,
    };
    let red = Grid {
        channel: Channel::Red,
        halved: true,
        second: true,
        cols: cols / 2,
        rows: rows / 2,
    };
    let mut r = make_plane(f, luma, w, h);
    let mut u = make_plane(f, blue, w / 2, h / 2);
    let mut v = make_plane(f, red, w / 2, h / 2);
    proof {
        lemma_plane_len(f@, luma, w as nat, h as nat);
        lemma_plane_len(f@, blue, (w / 2) as nat, (h / 2) as nat);
        lemma_plane_len(f@, red, (w / 2) as nat, (h / 2) as nat);
    }
    r.append(&mut u);
    r.append(&mut v);
    r
}

/// The pixels of a full plane.
pub open spec fn full_grid(f: FrameView, channel: Channel) -> Grid {
    Grid { channel, halved: false, second: false, cols: f.width, rows: f.height }
}

/// The three planes of a picture with full chroma.
#[derive(Debug)]
pub struct Planes {
    pub y: Vec<u8>,
    pub u: Vec<u8>,
    pub v: Vec<u8>,
}

/// Makes the planes of a picture of `w` by `h` with full chroma. What the frame does not cover
/// is 0.
pub fn rgba_to_444(f: &RenderedFrame, w: usize, h: usize) -> (r: Planes)
    requires
        f@.full(),
        f@.width <= w,
        f@.height <= h,
    ensures
        r.y@ == plane(f@, full_grid(f@, Channel::Luma), w as nat, h as nat),
        r.u@ == plane(f@, full_grid(f@, Channel::Blue), w as nat, h as nat),
        r.v@ == plane(f@, full_grid(f@, Channel::Red), w as nat, h as nat),
{
    let (cols, rows): (usize, usize) = (f.width, f.height);
    let y = make_plane(
        f,
        Grid { channel: Channel::Luma, halved: false, second: false, cols, rows },
        w,
        h,
    );
    let u = make_plane(
        f,
        Grid { channel: Channel::Blue, halved: false, second: false, cols, rows },
        w,
        h,
    );
    let v = make_plane(
        f,
        Grid { channel: Channel::Red, halved: false, second: false, cols, rows },
        w,
        h,
    );
    Planes { y, u, v }
}

/// Two lists of bytes, one byte from each in turn.
pub open spec fn interleaved(a: Seq<u8>, b: Seq<u8>) -> Seq<u8> {
    Seq::new(
        a.len() + b.len(),
        |i: int|
            if i % 2 == 0 {
                a[i / 2]
            } else {
                b[i / 2]
            },
    )
}

/// The pixels of a halved plane.
pub open spec fn half_grid(f: FrameView, channel: Channel) -> Grid {
    Grid { channel, halved: true, second: false, cols: f.width / 2, rows: f.height / 2 }
}

/// The luma plane of a frame, then its chroma, the two kinds of it in turn.
pub open spec fn nv12(f: FrameView) -> Seq<u8> {
    let (w, h) = (f.width as nat, f.height as nat);
    plane(f, full_grid(f, Channel::StudioLuma), w, h) + interleaved(
        plane(f, half_grid(f, Channel::StudioBlue), w / 2, h / 2),
        plane(f, half_grid(f, Channel::StudioRed), w / 2, h / 2),
    )
}

/// Makes the luma plane of a frame, then its chroma, the two kinds of it in turn.
pub fn rgba_to_nv12(f: &RenderedFrame) -> (r: Vec<u8>)
    requires
        f@.full(),
        f@.width % 2 == 0,
        f@.height % 2 == 0,
    ensures
        r@ == nv12(f@),
{
    let (w, h): (usize, usize) = (f.width, f.height);
    let luma = Grid {
        channel: Channel::StudioLuma,
        halved: false,
        second: false,
        cols: w,
        rows: h,
    };
    let blue = Grid {
        channel: Channel::StudioBlue,
        halved: true,
        second: false,
        cols: w / 2,
        rows: h / 2,
    };
    let red = Grid {
        channel: Channel::StudioRed,
        halved: true,
        second: false,
        cols: w / 2,
        rows: h / 2,
    };
    let mut r = make_plane(f, luma, w, h);
    let u = make_plane(f, blue, w / 2, h / 2);
    let v = make_plane(f, red, w / 2, h / 2);
    proof {
        lemma_plane_len(f@, blue, (w / 2) as nat, (h / 2) as nat);
        lemma_plane_len(f@, red, (w / 2) as nat, (h / 2) as nat);
    }
    let ghost first = r@;
    let ghost all = interleaved(u@, v@);
    let mut i: usize = 0;
    assert(r@ =~= first + all.take(0));
    while i < u.len()
        invariant
            i <= u@.len(),
            u@.len() == v@.len(),
            all == interleaved(u@, v@),
            r@ == first + all.take(2 * i),
        decreases u.len() - i,
    {
        assert(all[2 * i] == u@[i as int]);
        assert(all[2 * i + 1] == v@[i as int]);
        r.push(u[i]);
        r.push(v[i]);
        assert(r@ =~= first + all.take(2 * (i + 1)));
        i += 1;
    }
    assert(all.take(2 * i) =~= all);
    r
}

} // verus!
