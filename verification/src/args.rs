//! Arguments of directives.

use vstd::prelude::*;
use vstd::string::*;
use crate::context::{CtxView, ParseCtx};
use crate::diag::{CandyWarn, Fault, FaultView, WarnView};
use crate::easing::{easing_named, Easing};
use crate::expr::{
    angle_value, arg_source, arg_text, expr_to_angle, expr_to_f64, expr_to_ratio, find_named_value,
    find_pos_or_named, is_typst_ident, is_valid_typst_ident, named_value, number_value, opt_node,
    pair_value, pos_or_named, ratio_value, read_string, string_value, tuple_cm,
};
use crate::number::{clamped_floor, number_to_u32, Angle, Number, Ratio};
use crate::scene::{Span, SubPos, Timing};
use crate::syntax::{opt_text, Kind, Node, NodeView};
use crate::text::{lower, same, to_lower};

verus! {

/// The byte range of a node.
pub open spec fn span(n: NodeView) -> Span {
    Span { start: n.start as usize, end: n.end as usize }
}

/// The byte range of a node.
pub fn span_of(n: &Node) -> (r: Span)
    ensures
        r == span(n@),
{
    Span { start: n.start, end: n.end }
}

/// The byte range of an argument's value, or of the call where the value is missing.
pub open spec fn arg_span(call: NodeView, e: NodeView) -> Span {
    if e.kind == Kind::Named {
        span(call)
    } else {
        span(e)
    }
}

/// The byte range of an argument's value, or of the call where the value is missing.
pub fn arg_span_of(call: &Node, e: &Node) -> (r: Span)
    ensures
        r == arg_span(call@, e@),
{
    if e.kind == Kind::Named {
        span_of(call)
    } else {
        span_of(e)
    }
}

/// The `timing` argument: `"with"` or anything else; none where it is no string.
pub open spec fn timing_arg(call: NodeView) -> Option<Timing> {
    match string_value(named_value(call, "timing"@)) {
        Some(s) => if s == "with"@ {
            Some(Timing::With)
        } else {
            Some(Timing::After)
        },
        None => None,
    }
}

/// The `timing` argument.
pub fn parse_timing(call: &Node) -> (r: Option<Timing>)
    ensures
        r == timing_arg(call@),
{
    match read_string(find_named_value(call, "timing")) {
        Some(s) => if same(s.as_str(), "with") {
            Some(Timing::With)
        } else {
            Some(Timing::After)
        },
        None => None,
    }
}

/// A named number.
pub open spec fn named_number(call: NodeView, name: Seq<char>) -> Option<Number> {
    number_value(named_value(call, name))
}

/// A named number.
pub fn read_number(call: &Node, name: &str) -> (r: Option<Number>)
    ensures
        r == named_number(call@, name@),
{
    expr_to_f64(find_named_value(call, name))
}

/// A named number, or a whole one in its place.
pub open spec fn number_or(call: NodeView, name: Seq<char>, default: i64) -> Number {
    match named_number(call, name) {
        Some(n) => n,
        None => Number::Int(default),
    }
}

/// A named number, or a whole one in its place.
pub fn read_number_or(call: &Node, name: &str, default: i64) -> (r: Number)
    ensures
        r == number_or(call@, name@, default),
{
    match read_number(call, name) {
        Some(n) => n,
        None => Number::Int(default),
    }
}

/// The `delay` argument in milliseconds.
pub open spec fn delay_arg(call: NodeView) -> u32 {
    clamped_floor(number_or(call, "delay"@, 0), u32::MAX as nat) as u32
}

/// The `delay` argument in milliseconds.
pub fn parse_delay(call: &Node) -> (r: u32)
    ensures
        r == delay_arg(call@),
{
    number_to_u32(read_number_or(call, "delay", 0))
}

/// A number as a count of at least one.
pub open spec fn at_least_one(n: Number) -> u32 {
    let whole = clamped_floor(n, u32::MAX as nat) as u32;
    if whole < 1 {
        1
    } else {
        whole
    }
}

/// A number as a count of at least one.
pub fn count_of(n: Number) -> (r: u32)
    ensures
        r == at_least_one(n),
{
    let whole: u32 = number_to_u32(n);
    if whole < 1 {
        1
    } else {
        whole
    }
}

/// The `duration` argument: at least a millisecond.
pub open spec fn duration_arg(call: NodeView, default: i64) -> u32 {
    at_least_one(number_or(call, "duration"@, default))
}

/// The `duration` argument: at least a millisecond.
pub fn parse_duration(call: &Node, default: i64) -> (r: u32)
    ensures
        r == duration_arg(call@, default),
{
    count_of(read_number_or(call, "duration", default))
}

/// The `duration` argument where it may be left out.
pub open spec fn optional_duration(call: NodeView) -> Option<u32> {
    match named_number(call, "duration"@) {
        Some(n) => Some(at_least_one(n)),
        None => None,
    }
}

/// The `duration` argument where it may be left out.
pub fn parse_optional_duration(call: &Node) -> (r: Option<u32>)
    ensures
        r == optional_duration(call@),
{
    match read_number(call, "duration") {
        Some(n) => Some(count_of(n)),
        None => None,
    }
}

/// The label that a directive is about: its first argument, or `target`.
pub open spec fn target_label(call: NodeView) -> Option<Seq<char>> {
    string_value(pos_or_named(call, 0, "target"@))
}

/// The label that a directive is about: its first argument, or `target`.
pub fn target_arg(call: &Node) -> (r: Option<String>)
    ensures
        opt_text(r) == target_label(call@),
{
    read_string(find_pos_or_named(call, 0, "target"))
}

/// A named string, or another one in its place.
pub open spec fn string_or(call: NodeView, name: Seq<char>, default: Seq<char>) -> Seq<char> {
    match string_value(named_value(call, name)) {
        Some(s) => s,
        None => default,
    }
}

/// A named string, or another one in its place.
pub fn read_string_or(call: &Node, name: &str, default: &str) -> (r: String)
    ensures
        r@ == string_or(call@, name@, default@),
{
    match read_string(find_named_value(call, name)) {
        Some(s) => s,
        None => default.to_owned(),
    }
}

/// A named ratio. An argument that is there but no ratio is a fault.
pub open spec fn ratio_step(c: CtxView, call: NodeView, key: Seq<char>) -> (CtxView, Option<Ratio>) {
    match named_value(call, key) {
        None => (c, None),
        Some(e) => match ratio_value(Some(e)) {
            Some(v) => (c, Some(v)),
            None => (
                c.failed(
                    FaultView::InvalidKey {
                        what: "`"@ + key + "` (must be a ratio, e.g. `50%`)"@,
                        value: arg_text(e),
                        not_ident: false,
                        at: c.current_directive_loc,
                    },
                ),
                None,
            ),
        },
    }
}

/// A named ratio. A bare number is none, and is reported.
pub fn ratio_arg(call: &Node, key: &str, ctx: &mut ParseCtx) -> (r: Option<Ratio>)
    ensures
        (final(ctx)@, r) == ratio_step(old(ctx)@, call@, key@),
{
    match find_named_value(call, key) {
        None => None,
        Some(e) => match expr_to_ratio(Some(e)) {
            Some(v) => Some(v),
            None => {
                let at = ctx.current_directive_loc;
                let what = crate::text::join3("`", key, "` (must be a ratio, e.g. `50%`)");
                ctx.fail(Fault::InvalidKey { what, value: arg_source(e), not_ident: false, at });
                None
            },
        },
    }
}

/// A named angle. An argument that is there but no angle is a fault.
pub open spec fn angle_step(c: CtxView, call: NodeView, key: Seq<char>) -> (CtxView, Option<Angle>) {
    match named_value(call, key) {
        None => (c, None),
        Some(e) => match angle_value(Some(e)) {
            Some(v) => (c, Some(v)),
            None => (
                c.failed(
                    FaultView::InvalidKey {
                        what: "`"@ + key + "` (must be an angle, e.g. `90deg`)"@,
                        value: arg_text(e),
                        not_ident: false,
                        at: c.current_directive_loc,
                    },
                ),
                None,
            ),
        },
    }
}

/// A named angle. A bare number is none, and is reported.
pub fn angle_arg(call: &Node, key: &str, ctx: &mut ParseCtx) -> (r: Option<Angle>)
    ensures
        (final(ctx)@, r) == angle_step(old(ctx)@, call@, key@),
{
    match find_named_value(call, key) {
        None => None,
        Some(e) => match expr_to_angle(Some(e)) {
            Some(v) => Some(v),
            None => {
                let at = ctx.current_directive_loc;
                let what = crate::text::join3("`", key, "` (must be an angle, e.g. `90deg`)");
                ctx.fail(Fault::InvalidKey { what, value: arg_source(e), not_ident: false, at });
                None
            },
        },
    }
}

/// The `easing` argument; an unknown name gives a warning and the linear curve.
pub open spec fn easing_step(
    c: CtxView,
    call: NodeView,
    label: Seq<char>,
    default: Easing,
) -> (CtxView, Easing) {
    match string_value(named_value(call, "easing"@)) {
        None => (c, default),
        Some(s) => match easing_named(s) {
            Some(e) => (c, e),
            None => (
                c.warned(WarnView::UnknownEasing("'"@ + s + "' for @"@ + label, c.here())),
                Easing::Linear,
            ),
        },
    }
}

/// The `easing` argument; an unknown name gives a warning and the linear curve.
pub fn resolve_easing(call: &Node, label: &str, default: Easing, ctx: &mut ParseCtx) -> (r: Easing)
    ensures
        (final(ctx)@, r) == easing_step(old(ctx)@, call@, label@, default),
{
    match read_string(find_named_value(call, "easing")) {
        None => default,
        Some(s) => match Easing::from_str(s.as_str()) {
            Some(e) => e,
            None => {
                let mut text = crate::text::join3("'", s.as_str(), "' for @");
                text.append(label);
                let at = ctx.here();
                ctx.warn(CandyWarn::UnknownEasing(text, at));
                Easing::Linear
            },
        },
    }
}

/// The `easing` argument; an unknown name gives the linear curve, a missing one the smooth one.
pub open spec fn quiet_easing(call: NodeView) -> Easing {
    match string_value(named_value(call, "easing"@)) {
        Some(s) => match easing_named(s) {
            Some(e) => e,
            None => Easing::Linear,
        },
        None => Easing::Smooth,
    }
}

/// The `easing` argument, without a warning.
pub fn parse_quiet_easing(call: &Node) -> (r: Easing)
    ensures
        r == quiet_easing(call@),
{
    match read_string(find_named_value(call, "easing")) {
        Some(s) => match Easing::from_str(s.as_str()) {
            Some(e) => e,
            None => Easing::Linear,
        },
        None => Easing::Smooth,
    }
}

/// A name that an argument gives: a string that is an identifier, if `ident` asks for one.
/// Anything else is a fault; a missing argument is none.
pub open spec fn key_step(
    c: CtxView,
    call: NodeView,
    e: Option<NodeView>,
    what: Seq<char>,
    ident: bool,
) -> (CtxView, Option<Seq<char>>) {
    match e {
        None => (c, None),
        Some(e) => match e.value {
            None => (
                c.failed(
                    FaultView::InvalidKey {
                        what,
                        value: arg_text(e),
                        not_ident: false,
                        at: Some(arg_span(call, e)),
                    },
                ),
                None,
            ),
            Some(s) => if ident && !is_typst_ident(s) {
                (
                    c.failed(
                        FaultView::InvalidKey {
                            what,
                            value: s,
                            not_ident: true,
                            at: Some(arg_span(call, e)),
                        },
                    ),
                    None,
                )
            } else {
                (c, Some(s))
            },
        },
    }
}

/// A name that an argument gives.
pub fn key_arg(call: &Node, e: Option<&Node>, what: &str, ident: bool, ctx: &mut ParseCtx) -> (r:
    Option<String>)
    ensures
        (final(ctx)@, opt_text(r)) == key_step(old(ctx)@, call@, opt_node(e), what@, ident),
{
    match e {
        None => None,
        Some(e) => {
            let at = Some(arg_span_of(call, e));
            match &e.value {
                None => {
                    ctx.fail(
                        Fault::InvalidKey {
                            what: what.to_owned(),
                            value: arg_source(e),
                            not_ident: false,
                            at,
                        },
                    );
                    None
                },
                Some(s) => if ident && !is_valid_typst_ident(s.as_str()) {
                    ctx.fail(
                        Fault::InvalidKey {
                            what: what.to_owned(),
                            value: s.clone(),
                            not_ident: true,
                            at,
                        },
                    );
                    None
                } else {
                    Some(s.clone())
                },
            }
        },
    }
}

/// The place of a subtitle with a given name.
pub open spec fn named_place(s: Seq<char>) -> SubPos {
    let s = lower(s);
    if s == "top"@ {
        SubPos::Top
    } else if s == "center"@ || s == "centre"@ {
        SubPos::Center
    } else if s == "bottom-left"@ {
        SubPos::BottomLeft
    } else if s == "bottom-right"@ {
        SubPos::BottomRight
    } else if s == "top-left"@ {
        SubPos::TopLeft
    } else if s == "top-right"@ {
        SubPos::TopRight
    } else {
        SubPos::Bottom
    }
}

/// The `position` argument of a subtitle.
pub open spec fn place_arg(call: NodeView) -> SubPos {
    let e = named_value(call, "position"@);
    match string_value(e) {
        Some(s) => named_place(s),
        None => match pair_value(e) {
            Some(p) => SubPos::Absolute(p.0, p.1),
            None => SubPos::Bottom,
        },
    }
}

/// The `position` argument of a subtitle.
pub fn parse_sub_pos(call: &Node) -> (r: SubPos)
    ensures
        r == place_arg(call@),
{
    let e = find_named_value(call, "position");
    match read_string(e) {
        Some(s) => {
            let s = to_lower(s.as_str());
            if same(s.as_str(), "top") {
                SubPos::Top
            } else if same(s.as_str(), "center") || same(s.as_str(), "centre") {
                SubPos::Center
            } else if same(s.as_str(), "bottom-left") {
                SubPos::BottomLeft
            } else if same(s.as_str(), "bottom-right") {
                SubPos::BottomRight
            } else if same(s.as_str(), "top-left") {
                SubPos::TopLeft
            } else if same(s.as_str(), "top-right") {
                SubPos::TopRight
            } else {
                SubPos::Bottom
            }
        },
        None => match tuple_cm(e) {
            Some(p) => SubPos::Absolute(p.0, p.1),
            None => SubPos::Bottom,
        },
    }
}

} // verus!
