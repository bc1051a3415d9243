//! Easing curves by name.

use vstd::prelude::*;
use crate::text::same;

verus! {

/// An easing curve.
#[derive(Debug, Clone, Copy, PartialEq, Eq, Structural)]
pub enum Easing {
    Linear,
    Smooth,
    EaseInOut,
    CubicInOut,
    Wiggle,
}

/// The curve with a given name.
pub open spec fn easing_named(s: Seq<char>) -> Option<Easing> {
    if s == "linear"@ {
        Some(Easing::Linear)
    } else if s == "smooth"@ {
        Some(Easing::Smooth)
    } else if s == "ease-in-out"@ {
        Some(Easing::EaseInOut)
    } else if s == "cubic-in-out"@ {
        Some(Easing::CubicInOut)
    } else if s == "wiggle"@ {
        Some(Easing::Wiggle)
    } else {
        None
    }
}

impl Easing {
    /// The curve with a given name.
    pub fn from_str(s: &str) -> (r: Option<Easing>)
        ensures
            r == easing_named(s@),
    {
        if same(s, "linear") {
            Some(Easing::Linear)
        } else if same(s, "smooth") {
            Some(Easing::Smooth)
        } else if same(s, "ease-in-out") {
            Some(Easing::EaseInOut)
        } else if same(s, "cubic-in-out") {
            Some(Easing::CubicInOut)
        } else if same(s, "wiggle") {
            Some(Easing::Wiggle)
        } else {
            None
        }
    }
}

} // verus!
