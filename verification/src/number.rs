//! Numbers of a document: integers and doubles, lengths, ratios and angles.
//!
//! A double is carried as its bits. It is compared, cut and rounded here; the renderer
//! multiplies and divides.

use vstd::arithmetic::power2::{lemma2_to64, lemma2_to64_rest, pow2};
use vstd::prelude::*;

verus! {

/// A number as it was written.
#[derive(Debug, Clone, Copy, PartialEq, Eq, Structural)]
pub enum Number {
    Int(i64),
    /// Bits of an IEEE 754 double.
    Double(u64),
}

/// Unit of a length.
#[derive(Debug, Clone, Copy, PartialEq, Eq, Structural)]
pub enum LengthUnit {
    Cm,
    Mm,
    Pt,
    In,
}

/// A length, possibly with its sign flipped.
#[derive(Debug, Clone, Copy, PartialEq, Eq, Structural)]
pub struct Length {
    pub value: Number,
    pub unit: LengthUnit,
    pub negative: bool,
}

/// A ratio in percent.
#[derive(Debug, Clone, Copy, PartialEq, Eq, Structural)]
pub struct Ratio {
    pub percent: Number,
}

/// Unit of an angle.
#[derive(Debug, Clone, Copy, PartialEq, Eq, Structural)]
pub enum AngleUnit {
    Deg,
    Rad,
}

/// An angle.
#[derive(Debug, Clone, Copy, PartialEq, Eq, Structural)]
pub struct Angle {
    pub value: Number,
    pub unit: AngleUnit,
}

/// A whole percentage.
pub open spec fn percent(p: i64) -> Ratio {
    Ratio { percent: Number::Int(p) }
}

/// An angle in whole degrees.
pub open spec fn degrees(d: i64) -> Angle {
    Angle { value: Number::Int(d), unit: AngleUnit::Deg }
}

/// The exponent field of a double.
pub open spec fn exponent_field(bits: u64) -> int {
    (bits as int / pow2(52) as int) % 2048
}

/// The fraction field of a double.
pub open spec fn fraction_field(bits: u64) -> int {
    bits as int % pow2(52) as int
}

/// Whether a double carries a minus sign.
pub open spec fn sign_field(bits: u64) -> bool {
    bits as int >= pow2(63)
}

/// Whether a double is no number.
pub open spec fn is_nan(bits: u64) -> bool {
    exponent_field(bits) == 2047 && fraction_field(bits) != 0
}

/// The largest whole number that is not larger than a number, cut to `0..=max`; 0 for what is
/// no number.
pub open spec fn clamped_floor(n: Number, max: nat) -> nat {
    match n {
        Number::Int(i) => if i < 0 {
            0
        } else if i > max {
            max
        } else {
            i as nat
        },
        Number::Double(b) => if sign_field(b) || is_nan(b) || exponent_field(b) < 1023 {
            0
        } else if exponent_field(b) - 1023 >= 52 {
            max
        } else {
            let whole = ((pow2(52) + fraction_field(b)) / (pow2(
                (1075 - exponent_field(b)) as nat,
            ) as int)) as nat;
            if whole > max {
                max
            } else {
                whole
            }
        },
    }
}

fn power_of_two(k: u64) -> (r: u64)
    requires
        k <= 63,
    ensures
        r as nat == pow2(k as nat),
{
    proof {
        lemma2_to64();
        lemma2_to64_rest();
    }
    let mut r: u64 = 1;
    let mut i: u64 = 0;
    while i < k
        invariant
            i <= k <= 63,
            r as nat == pow2(i as nat),
        decreases k - i,
    {
        proof {
            vstd::arithmetic::power2::lemma_pow2_unfold((i + 1) as nat);
            vstd::arithmetic::power2::lemma_pow2_strictly_increases(i as nat, 63);
            lemma2_to64();
            lemma2_to64_rest();
        }
        r = r * 2;
        i += 1;
    }
    r
}

/// A number as an unsigned 32-bit one: its fraction is dropped, and what is out of range goes
/// to the nearer end of the range.
pub fn number_to_u32(n: Number) -> (r: u32)
    ensures
        r as nat == clamped_floor(n, u32::MAX as nat),
{
    proof {
        lemma2_to64();
        lemma2_to64_rest();
    }
    match n {
        Number::Int(i) => if i < 0 {
            0
        } else if i > 0xFFFF_FFFF {
            0xFFFF_FFFF
        } else {
            i as u32
        },
        Number::Double(b) => {
            let e: u64 = (b / 0x10_0000_0000_0000) % 2048;
            let f: u64 = b % 0x10_0000_0000_0000;
            if b >= 0x8000_0000_0000_0000 || (e == 2047 && f != 0) || e < 1023 {
                0
            } else if e - 1023 >= 52 {
                0xFFFF_FFFF
            } else {
                let d: u64 = power_of_two(1075 - e);
                let whole: u64 = (0x10_0000_0000_0000 + f) / d;
                if whole > 0xFFFF_FFFF {
                    0xFFFF_FFFF
                } else {
                    whole as u32
                }
            }
        },
    }
}

/// The nearest whole number, halves away from zero, cut to the 64-bit range; for a number that
/// carries no minus sign.
pub open spec fn rounded(n: Number) -> i64 {
    match n {
        Number::Int(i) => i,
        Number::Double(b) => {
            let e = exponent_field(b);
            let m = pow2(52) + fraction_field(b);
            let size = if is_nan(b) || e < 1022 {
                0
            } else if e >= 1023 + 63 {
                0x8000_0000_0000_0000
            } else if e >= 1075 {
                m * pow2((e - 1075) as nat)
            } else {
                (2 * m + pow2((1075 - e) as nat)) / (pow2((1076 - e) as nat) as int)
            };
            if sign_field(b) {
                -size as i64
            } else if size > i64::MAX {
                i64::MAX
            } else {
                size as i64
            }
        },
    }
}

/// The nearest whole number, halves away from zero, cut to the 64-bit range.
pub fn number_to_i64(n: Number) -> (r: i64)
    ensures
        r == rounded(n),
{
    proof {
        lemma2_to64();
        lemma2_to64_rest();
    }
    match n {
        Number::Int(i) => i,
        Number::Double(b) => {
            let e: u64 = (b / 0x10_0000_0000_0000) % 2048;
            let f: u64 = b % 0x10_0000_0000_0000;
            let m: u64 = 0x10_0000_0000_0000 + f;
            let size: u64 = if (e == 2047 && f != 0) || e < 1022 {
                0
            } else if e >= 1086 {
                0x8000_0000_0000_0000
            } else if e >= 1075 {
                let d: u64 = power_of_two(e - 1075);
                proof {
                    vstd::arithmetic::power2::lemma_pow2_strictly_increases((e - 1075) as nat, 11);
                    assert(m * d < 0x20_0000_0000_0000 * 0x400) by (nonlinear_arith)
                        requires
                            m < 0x20_0000_0000_0000,
                            1 <= d <= 0x400,
                    ;
                    vstd::arithmetic::power2::lemma_pow2_pos((e - 1075) as nat);
                    if e - 1075 < 10 {
                        vstd::arithmetic::power2::lemma_pow2_strictly_increases(
                            (e - 1075) as nat,
                            10,
                        );
                    }
                }
                m * d
            } else {
                let d: u64 = power_of_two(1075 - e);
                proof {
                    vstd::arithmetic::power2::lemma_pow2_unfold((1076 - e) as nat);
                    vstd::arithmetic::power2::lemma_pow2_pos((1075 - e) as nat);
                    if 1075 - e < 53 {
                        vstd::arithmetic::power2::lemma_pow2_strictly_increases(
                            (1075 - e) as nat,
                            53,
                        );
                    }
                }
                (2 * m + d) / (2 * d)
            };
            if b >= 0x8000_0000_0000_0000 {
                if size == 0x8000_0000_0000_0000 {
                    i64::MIN
                } else {
                    -(size as i64)
                }
            } else if size > 0x7FFF_FFFF_FFFF_FFFF {
                i64::MAX
            } else {
                size as i64
            }
        },
    }
}

/// Bits of the double 100.
pub const HUNDRED: u64 = 0x4059_0000_0000_0000;

/// Bits of the double nearest to a tenth.
pub const TENTH: u64 = 0x3FB9_9999_9999_999A;

/// A ratio cut to at most 100%; one that is no number or carries a minus sign is kept or goes
/// to 0%.
pub open spec fn unit_ratio(r: Ratio) -> Ratio {
    match r.percent {
        Number::Int(i) => if i < 0 {
            percent(0)
        } else if i > 100 {
            percent(100)
        } else {
            r
        },
        Number::Double(b) => if is_nan(b) {
            r
        } else if sign_field(b) {
            percent(0)
        } else if b > HUNDRED {
            percent(100)
        } else {
            r
        },
    }
}

/// A ratio cut to `0%..=100%`.
pub fn clamp_unit(r: Ratio) -> (c: Ratio)
    ensures
        c == unit_ratio(r),
{
    proof {
        lemma2_to64();
        lemma2_to64_rest();
    }
    match r.percent {
        Number::Int(i) => if i < 0 {
            Ratio { percent: Number::Int(0) }
        } else if i > 100 {
            Ratio { percent: Number::Int(100) }
        } else {
            r
        },
        Number::Double(b) => {
            let e: u64 = (b / 0x10_0000_0000_0000) % 2048;
            let f: u64 = b % 0x10_0000_0000_0000;
            if e == 2047 && f != 0 {
                r
            } else if b >= 0x8000_0000_0000_0000 {
                Ratio { percent: Number::Int(0) }
            } else if b > HUNDRED {
                Ratio { percent: Number::Int(100) }
            } else {
                r
            }
        },
    }
}

/// A zoom ratio of at least a tenth of a percent.
pub open spec fn zoom_ratio(r: Ratio) -> Ratio {
    match r.percent {
        Number::Int(i) => if i < 1 {
            Ratio { percent: Number::Double(TENTH) }
        } else {
            r
        },
        Number::Double(b) => if is_nan(b) || sign_field(b) || b < TENTH {
            Ratio { percent: Number::Double(TENTH) }
        } else {
            r
        },
    }
}

/// A zoom ratio of at least a tenth of a percent.
pub fn clamp_zoom(r: Ratio) -> (c: Ratio)
    ensures
        c == zoom_ratio(r),
{
    proof {
        lemma2_to64();
        lemma2_to64_rest();
    }
    match r.percent {
        Number::Int(i) => if i < 1 {
            Ratio { percent: Number::Double(TENTH) }
        } else {
            r
        },
        Number::Double(b) => {
            let e: u64 = (b / 0x10_0000_0000_0000) % 2048;
            let f: u64 = b % 0x10_0000_0000_0000;
            if (e == 2047 && f != 0) || b >= 0x8000_0000_0000_0000 || b < TENTH {
                Ratio { percent: Number::Double(TENTH) }
            } else {
                r
            }
        },
    }
}

} // verus!
