//! Directives that make several slides or change what a mobject shows.

use vstd::prelude::*;
use vstd::string::*;
use crate::args::{
    angle_arg, angle_step, at_least_one, count_of, delay_arg, duration_arg, easing_step,
    number_or, optional_duration, parse_delay, parse_duration, parse_optional_duration,
    parse_sub_pos, parse_timing, place_arg, ratio_arg, ratio_step, read_number_or, read_string_or,
    resolve_easing, span, string_or, target_arg, target_label, timing_arg,
};
use crate::context::{bump, later, next_id, plus, CtxView, ParseCtx};
use crate::diag::{CandyWarn, WarnView};
use crate::directives::{angle_or, ratio_or};
use crate::easing::Easing;
use crate::expr::{
    arg_source, arg_text, find_pos_arg, find_pos_or_named, pos_arg, pos_or_named, read_string,
    string_value, strip_string_literal, unquoted,
};
use crate::number::{degrees, percent, Angle, AngleUnit, Number, Ratio};
use crate::scene::{
    acted_on, is_acted_on, lemma_seq_view_push, seq_view, Action, ActionView, ContentSwitch,
    MorphPair, MorphPairView, Slide, SlideView, Span, Subtitle, SubtitleView, SwitchView, Switches,
    TransformPlan, TransformPlanView,
};
use crate::syntax::{Node, NodeView};
use crate::text::{
    char_views, chars_of, contains_text, decimal, has_text, join2, join3, same, split_words,
    string_of, sub_chars, to_decimal, trim_chars, trimmed, words,
};

verus! {

broadcast use lemma_seq_view_push;

/// A whole percentage.
fn whole_percent(p: i64) -> (r: Ratio)
    ensures
        r == percent(p),
{
    Ratio { percent: Number::Int(p) }
}

// ---------------------------------------------------------------- blink

/// The state with `n` blinks: out and in again, each half taking `half` milliseconds.
pub open spec fn blinks(c: CtxView, label: Seq<char>, easing: Easing, half: u32, n: nat) -> CtxView
    decreases n,
{
    if n == 0 {
        c
    } else {
        blinks(c, label, easing, half, (n - 1) as nat).continued(
            half,
            seq![ActionView::FadeTo { target: label, opacity: percent(0), easing }],
        ).continued(
            half,
            seq![ActionView::FadeTo { target: label, opacity: percent(100), easing }],
        )
    }
}

/// How long half a blink lasts: the duration shared out, at least a millisecond.
pub open spec fn half_blink(duration: u32, n: u32) -> u32 {
    let halves = if n * 2 > u32::MAX {
        u32::MAX as int
    } else {
        n * 2
    };
    let half = duration as int / halves;
    if half < 1 {
        1
    } else {
        half as u32
    }
}

/// `blink(target, blinks:, duration:, easing:)`.
pub open spec fn blink(c: CtxView, call: NodeView) -> CtxView {
    match target_label(call) {
        None => c,
        Some(label) => {
            let n = at_least_one(number_or(call, "blinks"@, 3));
            let half = half_blink(duration_arg(call, 500), n);
            let (c1, easing) = easing_step(c, call, label, Easing::Linear);
            blinks(
                c1.opened(timing_arg(call), delay_arg(call)),
                label,
                easing,
                half,
                n as nat,
            ).closed()
        },
    }
}

fn fade_to(label: &str, p: i64, easing: Easing) -> (r: Vec<Action>)
    ensures
        seq_view(r@) == seq![
            ActionView::FadeTo { target: label@, opacity: percent(p), easing },
        ],
{
    let mut r: Vec<Action> = Vec::new();
    r.push(Action::FadeTo { target: label.to_owned(), opacity: whole_percent(p), easing });
    assert(seq_view(r@) =~= seq![
        ActionView::FadeTo { target: label@, opacity: percent(p), easing },
    ]);
    r
}

/// `blink(target, blinks:, duration:, easing:)`.
pub fn process_blink(call: &Node, ctx: &mut ParseCtx)
    ensures
        final(ctx)@ == blink(old(ctx)@, call@),
{
    let label = match target_arg(call) {
        Some(label) => label,
        None => {
            return;
        },
    };
    let n: u32 = count_of(read_number_or(call, "blinks", 3));
    let duration: u32 = parse_duration(call, 500);
    let halves: u32 = if n > 0x7FFF_FFFF {
        0xFFFF_FFFF
    } else {
        n * 2
    };
    let mut half: u32 = duration / halves;
    if half < 1 {
        half = 1;
    }
    let easing = resolve_easing(call, label.as_str(), Easing::Linear, ctx);
    let _ = ctx.entry_start(parse_timing(call), parse_delay(call));
    let ghost c1 = ctx@;
    let mut i: u32 = 0;
    while i < n
        invariant
            i <= n,
            ctx@ == blinks(c1, label@, easing, half, i as nat),
        decreases n - i,
    {
        ctx.continue_entry(half, fade_to(label.as_str(), 0, easing));
        ctx.continue_entry(half, fade_to(label.as_str(), 100, easing));
        i += 1;
    }
    ctx.entry_close();
}

// ---------------------------------------------------------------- spiral-in

/// `spiral-in(target, scale:, rotate:, duration:, easing:)`: the target is put out of shape and
/// out of sight for a millisecond, and comes to rest from there.
pub open spec fn spiral_in(c: CtxView, call: NodeView) -> CtxView {
    match target_label(call) {
        None => c,
        Some(label) => {
            let (c1, scale) = ratio_step(c, call, "scale"@);
            let (c2, rotate) = angle_step(c1, call, "rotate"@);
            let (c3, easing) = easing_step(c2, call, label, Easing::Smooth);
            c3.opened(timing_arg(call), delay_arg(call)).continued(
                1,
                seq![
                    ActionView::ScaleBy { target: label, factor: ratio_or(scale, 300), easing },
                    ActionView::RotateBy {
                        target: label,
                        delta_degrees: angle_or(rotate, 360),
                        easing,
                    },
                    ActionView::Hide { target: label },
                ],
            ).continued(
                duration_arg(call, 300),
                seq![
                    ActionView::Scale { target: label, to: percent(100), easing },
                    ActionView::Rotate { target: label, degrees: degrees(0), easing },
                    ActionView::FadeIn { target: label, easing },
                ],
            ).closed()
        },
    }
}

/// `spiral-in(target, scale:, rotate:, duration:, easing:)`.
pub fn process_spiral_in(call: &Node, ctx: &mut ParseCtx)
    ensures
        final(ctx)@ == spiral_in(old(ctx)@, call@),
{
    let label = match target_arg(call) {
        Some(label) => label,
        None => {
            return;
        },
    };
    let factor = match ratio_arg(call, "scale", ctx) {
        Some(r) => r,
        None => whole_percent(300),
    };
    let delta_degrees = match angle_arg(call, "rotate", ctx) {
        Some(a) => a,
        None => Angle { value: Number::Int(360), unit: AngleUnit::Deg },
    };
    let duration: u32 = parse_duration(call, 300);
    let easing = resolve_easing(call, label.as_str(), Easing::Smooth, ctx);
    let _ = ctx.entry_start(parse_timing(call), parse_delay(call));
    let mut out: Vec<Action> = Vec::new();
    out.push(Action::ScaleBy { target: label.clone(), factor, easing });
    out.push(Action::RotateBy { target: label.clone(), delta_degrees, easing });
    out.push(Action::Hide { target: label.clone() });
    assert(seq_view(out@) =~= seq![
        ActionView::ScaleBy { target: label@, factor, easing },
        ActionView::RotateBy { target: label@, delta_degrees, easing },
        ActionView::Hide { target: label@ },
    ]);
    ctx.continue_entry(1, out);
    let rest = Angle { value: Number::Int(0), unit: AngleUnit::Deg };
    let mut home: Vec<Action> = Vec::new();
    home.push(Action::Scale { target: label.clone(), to: whole_percent(100), easing });
    home.push(Action::Rotate { target: label.clone(), degrees: rest, easing });
    home.push(Action::FadeIn { target: label.clone(), easing });
    assert(seq_view(home@) =~= seq![
        ActionView::Scale { target: label@, to: percent(100), easing },
        ActionView::Rotate { target: label@, degrees: degrees(0), easing },
        ActionView::FadeIn { target: label@, easing },
    ]);
    ctx.continue_entry(duration, home);
    ctx.entry_close();
}

// ---------------------------------------------------------------- fade-transform, morph

fn hiding(label: &str) -> (r: Vec<Action>)
    ensures
        seq_view(r@) == seq![ActionView::Hide { target: label@ }],
{
    let mut r: Vec<Action> = Vec::new();
    r.push(Action::Hide { target: label.to_owned() });
    assert(seq_view(r@) =~= seq![ActionView::Hide { target: label@ }]);
    r
}

/// The state with the incoming mobject hidden from the start, unless something acts on it
/// before.
pub open spec fn hidden_first(c: CtxView, label: Seq<char>) -> CtxView {
    if acted_on(c.slides, label) {
        c
    } else {
        c.with_slide(
            SlideView {
                start_ms: 0,
                duration_ms: 1,
                actions: seq![ActionView::Hide { target: label }],
                loc: None,
            },
        )
    }
}

/// `fade-transform(from, to, duration:, easing:)`: one mobject fades out while another fades in.
pub open spec fn fade_transform(c: CtxView, call: NodeView) -> CtxView {
    match (
        string_value(pos_or_named(call, 0, "from"@)),
        string_value(pos_or_named(call, 1, "to"@)),
    ) {
        (Some(from), Some(to)) => {
            let (c1, easing) = easing_step(c, call, from, Easing::Smooth);
            hidden_first(c1, to).opened(timing_arg(call), delay_arg(call)).continued(
                1,
                seq![ActionView::Hide { target: to }],
            ).continued(
                duration_arg(call, 300),
                seq![
                    ActionView::FadeOut { target: from, easing },
                    ActionView::FadeIn { target: to, easing },
                ],
            ).closed()
        },
        _ => c,
    }
}

/// `fade-transform(from, to, duration:, easing:)`. The incoming mobject is hidden right before,
/// so that it always fades in from nothing.
pub fn process_fade_transform(call: &Node, ctx: &mut ParseCtx)
    ensures
        final(ctx)@ == fade_transform(old(ctx)@, call@),
{
    let from = match read_string(find_pos_or_named(call, 0, "from")) {
        Some(from) => from,
        None => {
            return;
        },
    };
    let to = match read_string(find_pos_or_named(call, 1, "to")) {
        Some(to) => to,
        None => {
            return;
        },
    };
    let duration: u32 = parse_duration(call, 300);
    let easing = resolve_easing(call, from.as_str(), Easing::Smooth, ctx);
    if !is_acted_on(&ctx.slides, to.as_str()) {
        let actions = hiding(to.as_str());
        ctx.push_slide(Slide { start_ms: 0, duration_ms: 1, actions, loc: None });
    }
    let _ = ctx.entry_start(parse_timing(call), parse_delay(call));
    ctx.continue_entry(1, hiding(to.as_str()));
    let mut cross: Vec<Action> = Vec::new();
    cross.push(Action::FadeOut { target: from.clone(), easing });
    cross.push(Action::FadeIn { target: to.clone(), easing });
    assert(seq_view(cross@) =~= seq![
        ActionView::FadeOut { target: from@, easing },
        ActionView::FadeIn { target: to@, easing },
    ]);
    ctx.continue_entry(duration, cross);
    ctx.entry_close();
}

/// `morph(from, to, duration:, easing:)`: the shape of one mobject turns into that of another.
pub open spec fn morph(c: CtxView, call: NodeView) -> CtxView {
    match (string_value(pos_arg(call, 0)), string_value(pos_arg(call, 1))) {
        (Some(from), Some(to)) => {
            let (c1, easing) = easing_step(c, call, from, Easing::Smooth);
            let c2 = c1.opened(timing_arg(call), delay_arg(call)).continued(
                1,
                seq![ActionView::Hide { target: to }],
            );
            let duration = duration_arg(call, 500);
            let c3 = c2.continued(
                duration,
                seq![
                    ActionView::ScaleBy { target: from, factor: percent(1), easing },
                    ActionView::FadeOut { target: from, easing },
                    ActionView::FadeIn { target: to, easing },
                ],
            );
            CtxView {
                morph_pairs: c3.morph_pairs.push(
                    MorphPairView {
                        from,
                        to,
                        to_body: None,
                        start_ms: c2.entry_end,
                        end_ms: later(c2.entry_end, duration),
                        easing,
                    },
                ),
                ..c3
            }.closed()
        },
        _ => c,
    }
}

/// `morph(from, to, duration:, easing:)`.
pub fn process_morph(call: &Node, ctx: &mut ParseCtx)
    ensures
        final(ctx)@ == morph(old(ctx)@, call@),
{
    let from = match read_string(find_pos_arg(call, 0)) {
        Some(from) => from,
        None => {
            return;
        },
    };
    let to = match read_string(find_pos_arg(call, 1)) {
        Some(to) => to,
        None => {
            return;
        },
    };
    let duration: u32 = parse_duration(call, 500);
    let easing = resolve_easing(call, from.as_str(), Easing::Smooth, ctx);
    let _ = ctx.entry_start(parse_timing(call), parse_delay(call));
    ctx.continue_entry(1, hiding(to.as_str()));
    let start_ms: u32 = ctx.entry_end;
    let end_ms: u32 = plus(start_ms, duration);
    let mut change: Vec<Action> = Vec::new();
    change.push(Action::ScaleBy { target: from.clone(), factor: whole_percent(1), easing });
    change.push(Action::FadeOut { target: from.clone(), easing });
    change.push(Action::FadeIn { target: to.clone(), easing });
    assert(seq_view(change@) =~= seq![
        ActionView::ScaleBy { target: from@, factor: percent(1), easing },
        ActionView::FadeOut { target: from@, easing },
        ActionView::FadeIn { target: to@, easing },
    ]);
    ctx.continue_entry(duration, change);
    ctx.morph_pairs.push(MorphPair { from, to, to_body: None, start_ms, end_ms, easing });
    ctx.entry_close();
}

// ---------------------------------------------------------------- transform

/// The inside of a content block, or the body itself, without white space around it.
pub open spec fn inner_content(body: Seq<char>) -> Seq<char> {
    let b = trimmed(body);
    if b.len() >= 2 && b[0] == '[' && b.last() == ']' {
        trimmed(b.subrange(1, b.len() - 1))
    } else {
        trimmed(b)
    }
}

/// The calls that make a shape.
pub open spec fn shape_words() -> Seq<Seq<char>> {
    seq![
        "circle("@,
        "rect("@,
        "ellipse("@,
        "square("@,
        "triangle("@,
        "polygon("@,
        "line("@,
        "path("@,
        "arrow("@,
        "arc("@,
        "image("@,
    ]
}

/// Whether a body is a formula or a text, and no shape.
pub open spec fn inline_content(body: Seq<char>) -> bool {
    let inner = inner_content(body);
    (inner.len() > 0 && inner[0] == '$') || forall|i: int|
        0 <= i < shape_words().len() ==> !contains_text(inner, #[trigger] shape_words()[i])
}

fn shape_list() -> (r: Vec<&'static str>)
    ensures
        r@.len() == shape_words().len(),
        forall|i: int| 0 <= i < r@.len() ==> (#[trigger] r@[i])@ == shape_words()[i],
{
    vec![
        "circle(",
        "rect(",
        "ellipse(",
        "square(",
        "triangle(",
        "polygon(",
        "line(",
        "path(",
        "arrow(",
        "arc(",
        "image(",
    ]
}

/// Whether a body is a formula or a text that can be taken apart into glyphs. Shapes are not.
pub fn is_inline_content(body: &str) -> (r: bool)
    ensures
        r == inline_content(body@),
{
    let b = trim_chars(&chars_of(body));
    let inner = if b.len() >= 2 && b[0] == '[' && b[b.len() - 1] == ']' {
        trim_chars(&sub_chars(&b, 1, b.len() - 1))
    } else {
        trim_chars(&b)
    };
    if inner.len() > 0 && inner[0] == '$' {
        return true;
    }
    let shapes = shape_list();
    let mut i: usize = 0;
    while i < shapes.len()
        invariant
            i <= shapes.len(),
            shapes@.len() == shape_words().len(),
            forall|j: int| 0 <= j < shapes@.len() ==> (#[trigger] shapes@[j])@ == shape_words()[j],
            forall|j: int|
                0 <= j < i ==> !contains_text(inner@, #[trigger] shape_words()[j]),
            inner@ == inner_content(body@),
            !(inner@.len() > 0 && inner@[0] == '$'),
        decreases shapes.len() - i,
    {
        if has_text(&inner, &chars_of(shapes[i])) {
            assert(contains_text(inner@, shape_words()[i as int]));
            return false;
        }
        i += 1;
    }
    true
}

/// What a mobject shows at the end of all switches so far.
pub open spec fn shown_body(c: CtxView, label: Seq<char>) -> Seq<char> {
    if c.content_timeline.contains_key(label) && c.content_timeline[label].len() > 0 {
        c.content_timeline[label].last().body
    } else if c.items.contains_key(label) {
        c.items[label]
    } else {
        Seq::empty()
    }
}

fn read_shown_body(ctx: &ParseCtx, label: &str) -> (r: String)
    ensures
        r@ == shown_body(ctx@, label@),
{
    if let Some(t) = ctx.content_timeline.get(label) {
        if t.list.len() > 0 {
            return t.list[t.list.len() - 1].body.clone();
        }
    }
    match ctx.items.get(label) {
        Some(body) => body.clone(),
        None => String::new(),
    }
}

/// The content switches of a mobject so far.
pub open spec fn switches_of(c: CtxView, label: Seq<char>) -> Seq<SwitchView> {
    if c.content_timeline.contains_key(label) {
        c.content_timeline[label]
    } else {
        Seq::empty()
    }
}

fn read_switches(ctx: &ParseCtx, label: &str) -> (r: Switches)
    ensures
        r@ == switches_of(ctx@, label@),
{
    match ctx.content_timeline.get(label) {
        Some(t) => t.duplicate(),
        None => {
            let r = Switches { list: Vec::new() };
            assert(r@ =~= Seq::<SwitchView>::empty());
            r
        },
    }
}

/// The label under which the old content of a mobject is kept.
pub open spec fn parked_label(label: Seq<char>, n: usize) -> Seq<char> {
    "__xf_"@ + label + "_"@ + decimal(n as nat)
}

/// `transform(target, to:, duration:, easing:)`: the target shows something else from now on.
pub open spec fn transform(c: CtxView, call: NodeView) -> CtxView {
    match (target_label(call), pos_or_named(call, 1, "to"@)) {
        (Some(label), Some(to)) => {
            let new_body = arg_text(to);
            if new_body.len() == 0 {
                c
            } else {
                let (c1, easing) = easing_step(c, call, label, Easing::Smooth);
                let old_body = shown_body(c1, label);
                if old_body.len() == 0 {
                    fresh(c1, call, label, new_body, easing)
                } else {
                    replaced(c1, call, label, old_body, new_body, easing)
                }
            }
        },
        _ => c,
    }
}

/// The state where a mobject that showed nothing fades in with its new content.
pub open spec fn fresh(
    c: CtxView,
    call: NodeView,
    label: Seq<char>,
    body: Seq<char>,
    easing: Easing,
) -> CtxView {
    let duration = duration_arg(call, 500);
    let c1 = c.with_initial(label, 0).with_item(label, body);
    c1.opened(timing_arg(call), delay_arg(call)).with_slide(
        SlideView {
            start_ms: c1.start_of(timing_arg(call), delay_arg(call)),
            duration_ms: duration,
            actions: seq![ActionView::FadeIn { target: label, easing }],
            loc: None,
        },
    ).advanced(duration).closed()
}

/// The state with the old content of a mobject kept under a label of its own, in the scene of
/// the mobject and out of sight.
pub open spec fn parked(c: CtxView, label: Seq<char>, old_body: Seq<char>) -> CtxView {
    let tmp = parked_label(label, c.xf_counter);
    let c1 = CtxView { xf_counter: next_id(c.xf_counter), ..c }.with_item(tmp, old_body);
    let scene = if c1.label_scene.contains_key(label) {
        c1.label_scene[label]
    } else {
        c1.current_scene
    };
    c1.registered(tmp, scene).with_initial(tmp, 0)
}

/// The state where the content of a mobject is replaced. Its body stays as it is; the switch is
/// noted on the timeline. Formulas and texts change glyph by glyph, shapes by their outline.
pub open spec fn replaced(
    c: CtxView,
    call: NodeView,
    label: Seq<char>,
    old_body: Seq<char>,
    new_body: Seq<char>,
    easing: Easing,
) -> CtxView {
    let duration = duration_arg(call, 500);
    let tmp = parked_label(label, c.xf_counter);
    let c1 = parked(c, label, old_body);
    let start = c1.start_of(timing_arg(call), delay_arg(call));
    let at = later(start, 1);
    let c2 = c1.opened(timing_arg(call), delay_arg(call));
    let c3 = CtxView {
        content_timeline: c2.content_timeline.insert(
            label,
            switches_of(c2, label).push(SwitchView { at_ms: at, body: new_body }),
        ),
        ..c2
    };
    let c4 = if inline_content(old_body) && inline_content(new_body) {
        CtxView {
            transform_plans: c3.transform_plans.push(
                TransformPlanView {
                    target: label,
                    old: tmp,
                    old_body,
                    new_body,
                    start_ms: at,
                    end_ms: later(at, duration),
                    easing,
                },
            ),
            ..c3
        }
    } else {
        CtxView {
            morph_pairs: c3.morph_pairs.push(
                MorphPairView {
                    from: tmp,
                    to: label,
                    to_body: Some(new_body),
                    start_ms: at,
                    end_ms: later(at, duration),
                    easing,
                },
            ),
            ..c3
        }
    };
    c4.with_slide(
        SlideView {
            start_ms: at,
            duration_ms: duration,
            actions: seq![ActionView::Transform { target: label, old: tmp, easing }],
            loc: None,
        },
    ).advanced(duration).closed()
}

fn fade_in_fresh(call: &Node, label: &str, body: String, easing: Easing, ctx: &mut ParseCtx)
    ensures
        final(ctx)@ == fresh(old(ctx)@, call@, label@, body@, easing),
{
    let duration: u32 = parse_duration(call, 500);
    ctx.set_initial(label, 0);
    ctx.set_item(label, body);
    let start: u32 = ctx.entry_start(parse_timing(call), parse_delay(call));
    let mut actions: Vec<Action> = Vec::new();
    actions.push(Action::FadeIn { target: label.to_owned(), easing });
    assert(seq_view(actions@) =~= seq![ActionView::FadeIn { target: label@, easing }]);
    ctx.push_slide(Slide { start_ms: start, duration_ms: duration, actions, loc: None });
    ctx.entry_advance(duration);
    ctx.entry_close();
}

fn park(label: &str, old_body: &str, ctx: &mut ParseCtx) -> (tmp: String)
    ensures
        tmp@ == parked_label(label@, old(ctx)@.xf_counter),
        final(ctx)@ == parked(old(ctx)@, label@, old_body@),
{
    let number: usize = ctx.xf_counter;
    let mut tmp = join3("__xf_", label, "_");
    tmp.append(to_decimal(number as u64).as_str());
    ctx.xf_counter = bump(number);
    ctx.set_item(tmp.as_str(), old_body.to_owned());
    let scene: usize = match ctx.label_scene.get(label) {
        Some(s) => *s,
        None => ctx.current_scene,
    };
    ctx.register_label(tmp.as_str(), scene);
    ctx.set_initial(tmp.as_str(), 0);
    tmp
}

fn replace_content(
    call: &Node,
    label: &str,
    old_body: String,
    new_body: String,
    easing: Easing,
    ctx: &mut ParseCtx,
)
    ensures
        final(ctx)@ == replaced(old(ctx)@, call@, label@, old_body@, new_body@, easing),
{
    let duration: u32 = parse_duration(call, 500);
    let tmp = park(label, old_body.as_str(), ctx);
    let start: u32 = ctx.entry_start(parse_timing(call), parse_delay(call));
    let at: u32 = plus(start, 1);
    let mut switches = read_switches(ctx, label);
    switches.list.push(ContentSwitch { at_ms: at, body: new_body.clone() });
    ctx.content_timeline.insert(label.to_owned(), switches);
    let end_ms: u32 = plus(at, duration);
    let inline = is_inline_content(old_body.as_str()) && is_inline_content(new_body.as_str());
    if inline {
        ctx.transform_plans.push(
            TransformPlan {
                target: label.to_owned(),
                old: tmp.clone(),
                old_body,
                new_body,
                start_ms: at,
                end_ms,
                easing,
            },
        );
    } else {
        ctx.morph_pairs.push(
            MorphPair {
                from: tmp.clone(),
                to: label.to_owned(),
                to_body: Some(new_body),
                start_ms: at,
                end_ms,
                easing,
            },
        );
    }
    let ghost tv = tmp@;
    let mut actions: Vec<Action> = Vec::new();
    actions.push(Action::Transform { target: label.to_owned(), old: tmp, easing });
    assert(seq_view(actions@) =~= seq![
        ActionView::Transform { target: label@, old: tv, easing },
    ]);
    ctx.push_slide(Slide { start_ms: at, duration_ms: duration, actions, loc: None });
    ctx.entry_advance(duration);
    ctx.entry_close();
}

/// `transform(target, to:, duration:, easing:)`.
pub fn process_transform(call: &Node, ctx: &mut ParseCtx)
    ensures
        final(ctx)@ == transform(old(ctx)@, call@),
{
    let label = match target_arg(call) {
        Some(label) => label,
        None => {
            return;
        },
    };
    let to = match find_pos_or_named(call, 1, "to") {
        Some(to) => to,
        None => {
            return;
        },
    };
    let new_body = arg_source(to);
    if new_body.as_str().is_empty() {
        return;
    }
    let easing = resolve_easing(call, label.as_str(), Easing::Smooth, ctx);
    let old_body = read_shown_body(ctx, label.as_str());
    if old_body.as_str().is_empty() {
        fade_in_fresh(call, label.as_str(), new_body, easing, ctx);
    } else {
        replace_content(call, label.as_str(), old_body, new_body, easing, ctx);
    }
}

// ---------------------------------------------------------------- reveal

/// A text between double quotes.
pub open spec fn quoted(s: Seq<char>) -> Seq<char> {
    "\""@ + s + "\""@
}

fn quote(s: &[char]) -> (r: String)
    ensures
        r@ == quoted(s@),
{
    join3("\"", string_of(s).as_str(), "\"")
}

/// The pieces one after the other, with `sep` between them.
pub open spec fn joined(s: Seq<Seq<char>>, sep: Seq<char>) -> Seq<char>
    decreases s.len(),
{
    if s.len() == 0 {
        Seq::empty()
    } else if s.len() == 1 {
        s[0]
    } else {
        joined(s.drop_last(), sep) + sep + s.last()
    }
}

/// The pieces in which a text is revealed: its words, or its characters.
pub open spec fn chunks(inner: Seq<char>, by_word: bool) -> Seq<Seq<char>> {
    if by_word {
        words(inner)
    } else {
        inner.map_values(|c: char| seq![c])
    }
}

/// The first `k` pieces of a text: words with a space between them, characters without.
pub open spec fn prefix(s: Seq<Seq<char>>, by_word: bool, k: int) -> Seq<char> {
    joined(
        if k > s.len() {
            s
        } else {
            s.take(k)
        },
        if by_word {
            seq![' ']
        } else {
            Seq::empty()
        },
    )
}

/// In how many steps a text is revealed: one for each piece, at least one.
pub open spec fn step_count(s: Seq<Seq<char>>) -> nat {
    if s.len() == 0 {
        1
    } else {
        s.len()
    }
}

/// When step `k` of `n` is done: the duration shared out, rounded up, and never past its end.
pub open spec fn step_time(start: u32, duration: u32, n: nat, k: int) -> u32 {
    let step = (duration + n - 1) / (n as int);
    let at = start + k * step;
    let end = later(start, duration);
    if at < end {
        at as u32
    } else {
        end
    }
}

/// The content switches of the first `k` steps.
pub open spec fn steps(
    start: u32,
    duration: u32,
    s: Seq<Seq<char>>,
    by_word: bool,
    k: nat,
) -> Seq<SwitchView>
    decreases k,
{
    if k == 0 {
        Seq::empty()
    } else {
        steps(start, duration, s, by_word, (k - 1) as nat).push(
            SwitchView {
                at_ms: step_time(start, duration, step_count(s), k as int),
                body: quoted(prefix(s, by_word, k as int)),
            },
        )
    }
}

/// The content switches that reveal a text: nothing at first, then more and more of it, then all.
pub open spec fn reveal_switches(
    start: u32,
    duration: u32,
    inner: Seq<char>,
    by_word: bool,
) -> Seq<SwitchView> {
    let s = chunks(inner, by_word);
    seq![SwitchView { at_ms: start, body: "none"@ }] + steps(
        start,
        duration,
        s,
        by_word,
        step_count(s),
    ) + seq![SwitchView { at_ms: later(start, duration), body: quoted(inner) }]
}

/// Whether a switch happens before `start`.
pub open spec fn switched_before(s: Seq<SwitchView>, start: u32) -> bool {
    exists|i: int| 0 <= i < s.len() && (#[trigger] s[i]).at_ms < start
}

/// All switches of a mobject with those of a reveal. Where nothing else has touched the mobject
/// before, it is empty from the start.
pub open spec fn revealed(
    before: Seq<SwitchView>,
    start: u32,
    duration: u32,
    inner: Seq<char>,
    by_word: bool,
    touched: bool,
) -> Seq<SwitchView> {
    let all = before + reveal_switches(start, duration, inner, by_word);
    if !switched_before(all, start) && !touched && start > 0 {
        seq![SwitchView { at_ms: 0, body: "none"@ }] + all
    } else {
        all
    }
}

/// `reveal(target, by:, duration:, easing:)` and `typewriter(target, duration:, easing:)`: a text
/// comes up piece by piece.
pub open spec fn reveal_text(c: CtxView, call: NodeView, typewriter: bool) -> CtxView {
    match target_label(call) {
        None => c,
        Some(label) => {
            let duration = duration_arg(call, 1000);
            let by = string_or(
                call,
                "by"@,
                if typewriter {
                    "char"@
                } else {
                    "word"@
                },
            );
            let (c1, _) = easing_step(c, call, label, Easing::Smooth);
            if !c1.items.contains_key(label) {
                c1
            } else {
                match unquoted(c1.items[label]) {
                    None => c1.warned(WarnView::RevealFallback("@"@ + label, c1.here())).emitted(
                        timing_arg(call),
                        delay_arg(call),
                        duration,
                        seq![ActionView::FadeIn { target: label, easing: Easing::Linear }],
                    ),
                    Some(inner) => {
                        let start = c1.start_of(timing_arg(call), delay_arg(call));
                        let c2 = c1.opened(timing_arg(call), delay_arg(call));
                        CtxView {
                            content_timeline: c2.content_timeline.insert(
                                label,
                                revealed(
                                    switches_of(c2, label),
                                    start,
                                    duration,
                                    inner,
                                    by == "word"@,
                                    acted_on(c2.slides, label),
                                ),
                            ),
                            ..c2
                        }.with_slide(
                            SlideView {
                                start_ms: start,
                                duration_ms: duration,
                                actions: Seq::empty(),
                                loc: None,
                            },
                        ).advanced(duration).closed()
                    },
                }
            }
        },
    }
}

fn split_chunks(inner: &Vec<char>, by_word: bool) -> (r: Vec<Vec<char>>)
    ensures
        char_views(r@) == chunks(inner@, by_word),
{
    if by_word {
        return split_words(inner);
    }
    let mut r: Vec<Vec<char>> = Vec::new();
    let mut i: usize = 0;
    while i < inner.len()
        invariant
            i <= inner.len(),
            r@.len() == i,
            forall|j: int| 0 <= j < i ==> (#[trigger] r@[j])@ == seq![inner@[j]],
        decreases inner.len() - i,
    {
        let mut piece: Vec<char> = Vec::new();
        piece.push(inner[i]);
        assert(piece@ =~= seq![inner@[i as int]]);
        r.push(piece);
        i += 1;
    }
    assert(char_views(r@) =~= chunks(inner@, by_word));
    r
}

fn push_chars(out: &mut Vec<char>, v: &Vec<char>)
    ensures
        final(out)@ == old(out)@ + v@,
{
    let mut i: usize = 0;
    assert(out@ =~= old(out)@ + v@.take(0));
    while i < v.len()
        invariant
            i <= v.len(),
            out@ == old(out)@ + v@.take(i as int),
        decreases v.len() - i,
    {
        out.push(v[i]);
        assert(out@ =~= old(out)@ + v@.take(i + 1));
        i += 1;
    }
    assert(v@.take(v@.len() as int) =~= v@);
}

fn share(duration: u32, n: usize) -> (r: u64)
    requires
        n > 0,
    ensures
        r as int == (duration + n - 1) / (n as int),
        r <= duration,
{
    let d: u64 = duration as u64;
    let m: u64 = n as u64;
    let q: u64 = d / m;
    let rest: u64 = d % m;
    proof {
        vstd::arithmetic::div_mod::lemma_fundamental_div_mod(d as int, m as int);
        assert(q * m == m * q) by (nonlinear_arith);
        if rest == 0 {
            vstd::arithmetic::div_mod::lemma_fundamental_div_mod_converse(
                d + m - 1,
                m as int,
                q as int,
                m - 1,
            );
        } else {
            assert(m * (q + 1) == m * q + m) by (nonlinear_arith);
            assert((q + 1) * m == m * (q + 1)) by (nonlinear_arith);
            vstd::arithmetic::div_mod::lemma_fundamental_div_mod_converse(
                d + m - 1,
                m as int,
                q + 1,
                rest - 1,
            );
        }
        assert(q <= d) by (nonlinear_arith)
            requires
                d == m * q + rest,
                m >= 1,
                rest >= 0,
        ;
        if rest > 0 {
            assert(q + 1 <= d) by (nonlinear_arith)
                requires
                    d == m * q + rest,
                    m >= 1,
                    rest >= 1,
                    q >= 0,
            ;
        }
    }
    if rest == 0 {
        q
    } else {
        q + 1
    }
}

fn time_of_step(start: u32, duration: u32, n: usize, k: usize) -> (r: u32)
    requires
        n > 0,
    ensures
        r == step_time(start, duration, n as nat, k as int),
{
    let step: u64 = share(duration, n);
    let end: u32 = plus(start, duration);
    if step == 0 {
        assert(k * 0 == 0);
        return if start < end {
            start
        } else {
            end
        };
    }
    proof {
        assert(step as int == (duration + n - 1) / (n as int));
    }
    match (k as u64).checked_mul(step) {
        None => {
            proof {
                assert(k * step > u64::MAX);
            }
            end
        },
        Some(x) => match x.checked_add(start as u64) {
            None => end,
            Some(at) => if at < end as u64 {
                at as u32
            } else {
                end
            },
        },
    }
}

proof fn lemma_prefix_next(s: Seq<Seq<char>>, by_word: bool, k: int)
    requires
        1 < k <= s.len(),
    ensures
        prefix(s, by_word, k) == prefix(s, by_word, k - 1) + (if by_word {
            seq![' ']
        } else {
            Seq::empty()
        }) + s[k - 1],
{
    assert(s.take(k).drop_last() =~= s.take(k - 1));
}

fn push_steps(
    out: &mut Vec<ContentSwitch>,
    start: u32,
    duration: u32,
    pieces: &Vec<Vec<char>>,
    by_word: bool,
)
    ensures
        seq_view(final(out)@) == seq_view(old(out)@) + steps(
            start,
            duration,
            char_views(pieces@),
            by_word,
            step_count(char_views(pieces@)),
        ),
{
    let ghost s = char_views(pieces@);
    let ghost before = seq_view(out@);
    let n: usize = if pieces.len() == 0 {
        1
    } else {
        pieces.len()
    };
    let mut sofar: Vec<char> = Vec::new();
    let mut k: usize = 0;
    assert(seq_view(out@) =~= before + steps(start, duration, s, by_word, 0));
    while k < n
        invariant
            k <= n,
            n > 0,
            s == char_views(pieces@),
            n as nat == step_count(s),
            k > 0 ==> sofar@ == prefix(s, by_word, k as int),
            k == 0 ==> sofar@.len() == 0,
            seq_view(out@) == before + steps(start, duration, s, by_word, k as nat),
        decreases n - k,
    {
        if k < pieces.len() {
            if by_word && k > 0 {
                sofar.push(' ');
            }
            let ghost mid = sofar@;
            push_chars(&mut sofar, &pieces[k]);
            proof {
                assert(s[k as int] == pieces@[k as int]@);
                if k == 0 {
                    assert(s.take(1).len() == 1);
                    assert(sofar@ =~= s[0]);
                    assert(prefix(s, by_word, 1) == s[0]);
                } else {
                    lemma_prefix_next(s, by_word, k + 1);
                    if by_word {
                        assert(mid =~= prefix(s, by_word, k as int) + seq![' ']);
                    } else {
                        assert(prefix(s, by_word, k as int) + Seq::<char>::empty()
                            =~= prefix(s, by_word, k as int));
                    }
                }
            }
        } else {
            proof {
                assert(s.len() == 0);
                assert(prefix(s, by_word, 1) =~= Seq::<char>::empty());
                assert(sofar@ =~= Seq::<char>::empty());
            }
        }
        let at_ms: u32 = time_of_step(start, duration, n, k + 1);
        out.push(ContentSwitch { at_ms, body: quote(sofar.as_slice()) });
        assert(seq_view(out@) =~= before + steps(start, duration, s, by_word, (k + 1) as nat));
        k += 1;
    }
}

fn is_switched_before(v: &Vec<ContentSwitch>, start: u32) -> (r: bool)
    ensures
        r == switched_before(seq_view(v@), start),
{
    let ghost s = seq_view(v@);
    let mut i: usize = 0;
    while i < v.len()
        invariant
            i <= v.len(),
            s == seq_view(v@),
            forall|j: int| 0 <= j < i ==> (#[trigger] s[j]).at_ms >= start,
        decreases v.len() - i,
    {
        assert(s[i as int] == v@[i as int]@);
        if v[i].at_ms < start {
            return true;
        }
        i += 1;
    }
    false
}

fn reveal_list(
    before: Switches,
    start: u32,
    duration: u32,
    inner: &Vec<char>,
    by_word: bool,
    touched: bool,
) -> (r: Switches)
    ensures
        r@ == revealed(before@, start, duration, inner@, by_word, touched),
{
    let ghost b = before@;
    let mut list = before.list;
    let pieces = split_chunks(inner, by_word);
    list.push(ContentSwitch { at_ms: start, body: "none".to_owned() });
    push_steps(&mut list, start, duration, &pieces, by_word);
    list.push(ContentSwitch { at_ms: plus(start, duration), body: quote(inner.as_slice()) });
    let ghost all = b + reveal_switches(start, duration, inner@, by_word);
    assert(seq_view(list@) =~= all);
    if !is_switched_before(&list, start) && !touched && start > 0 {
        let ghost before_insert = list@;
        list.insert(0, ContentSwitch { at_ms: 0, body: "none".to_owned() });
        assert(seq_view(list@) =~= seq![SwitchView { at_ms: 0, body: "none"@ }] + all);
    }
    Switches { list }
}

/// `reveal(target, by:, duration:, easing:)` and `typewriter(target, duration:, easing:)`. A
/// mobject that is no text fades in instead, with a warning.
pub fn process_reveal(call: &Node, typewriter: bool, ctx: &mut ParseCtx)
    ensures
        final(ctx)@ == reveal_text(old(ctx)@, call@, typewriter),
{
    let label = match target_arg(call) {
        Some(label) => label,
        None => {
            return;
        },
    };
    let duration: u32 = parse_duration(call, 1000);
    let by = if typewriter {
        read_string_or(call, "by", "char")
    } else {
        read_string_or(call, "by", "word")
    };
    let _ = resolve_easing(call, label.as_str(), Easing::Smooth, ctx);
    let inner = match ctx.items.get(label.as_str()) {
        None => {
            return;
        },
        Some(body) => strip_string_literal(body.as_str()),
    };
    match inner {
        None => {
            let at = ctx.here();
            ctx.warn(CandyWarn::RevealFallback(join2("@", label.as_str()), at));
            let ghost l = label@;
            let mut actions: Vec<Action> = Vec::new();
            actions.push(Action::FadeIn { target: label, easing: Easing::Linear });
            assert(seq_view(actions@) =~= seq![
                ActionView::FadeIn { target: l, easing: Easing::Linear },
            ]);
            ctx.emit_slide(parse_timing(call), parse_delay(call), duration, actions);
        },
        Some(inner) => {
            let by_word = same(by.as_str(), "word");
            let start: u32 = ctx.entry_start(parse_timing(call), parse_delay(call));
            let before = read_switches(ctx, label.as_str());
            let touched = is_acted_on(&ctx.slides, label.as_str());
            let switches = reveal_list(before, start, duration, &inner, by_word, touched);
            ctx.content_timeline.insert(label, switches);
            let actions: Vec<Action> = Vec::new();
            assert(seq_view(actions@) =~= Seq::<ActionView>::empty());
            ctx.push_slide(Slide { start_ms: start, duration_ms: duration, actions, loc: None });
            ctx.entry_advance(duration);
            ctx.entry_close();
        },
    }
}

// ---------------------------------------------------------------- subtitle

/// Whether a hash sign stands right in front of a byte of the source.
pub open spec fn hash_before(source: Seq<char>, start: int) -> bool {
    let bytes = vstd::utf8::encode_utf8(source);
    0 < start <= bytes.len() && bytes[start - 1] == 0x23
}

/// Whether a hash sign stands right in front of a byte of the source.
pub fn is_hash_before(source: &str, start: usize) -> (r: bool)
    ensures
        r == hash_before(source@, start as int),
{
    let bytes = source.as_bytes();
    start > 0 && start <= bytes.len() && bytes[start - 1] == 0x23
}

/// The byte range of a call, with the hash sign in front of it.
pub open spec fn hashed_span(source: Seq<char>, n: NodeView) -> Span {
    if hash_before(source, n.start as int) {
        Span { start: (n.start - 1) as usize, end: n.end as usize }
    } else {
        span(n)
    }
}

/// The byte range of a node, with the hash sign in front of it.
pub fn hashed_span_of(source: &str, n: &Node) -> (r: Span)
    ensures
        r == hashed_span(source@, n@),
{
    if is_hash_before(source, n.start) {
        Span { start: n.start - 1, end: n.end }
    } else {
        Span { start: n.start, end: n.end }
    }
}

/// `subtitle(body, duration:, position:, easing:)`: a caption from now on.
pub open spec fn subtitle(c: CtxView, call: NodeView) -> CtxView {
    match pos_or_named(call, 0, "body"@) {
        None => c,
        Some(e) => {
            let body = arg_text(e);
            if body.len() == 0 {
                c
            } else {
                let (c1, easing) = easing_step(c, call, "subtitle"@, Easing::Linear);
                let id = "__sub_"@ + decimal(c1.subtitle_id as nat);
                CtxView {
                    subtitle_id: next_id(c1.subtitle_id),
                    subtitles: c1.subtitles.push(
                        SubtitleView {
                            id,
                            scope: c1.scope(),
                            body,
                            start_ms: c1.cursor,
                            end_ms: match optional_duration(call) {
                                Some(d) => Some(later(c1.cursor, d)),
                                None => None,
                            },
                            position: place_arg(call),
                            easing,
                        },
                    ),
                    subtitle_call_ranges: c1.subtitle_call_ranges.insert(
                        id,
                        hashed_span(c1.source, call),
                    ),
                    ..c1
                }
            }
        },
    }
}

/// `subtitle(body, duration:, position:, easing:)`.
pub fn process_subtitle(call: &Node, ctx: &mut ParseCtx)
    ensures
        final(ctx)@ == subtitle(old(ctx)@, call@),
{
    let e = match find_pos_or_named(call, 0, "body") {
        Some(e) => e,
        None => {
            return;
        },
    };
    let body = arg_source(e);
    if body.as_str().is_empty() {
        return;
    }
    let easing = resolve_easing(call, "subtitle", Easing::Linear, ctx);
    let number: usize = ctx.subtitle_id;
    let id = join2("__sub_", to_decimal(number as u64).as_str());
    let start_ms: u32 = ctx.cursor;
    let end_ms = match parse_optional_duration(call) {
        Some(d) => Some(plus(start_ms, d)),
        None => None,
    };
    let scope: usize = ctx.current_scope();
    let position = parse_sub_pos(call);
    let at = hashed_span_of(ctx.source.as_str(), call);
    ctx.subtitle_id = bump(number);
    ctx.subtitles.push(Subtitle { id: id.clone(), scope, body, start_ms, end_ms, position, easing });
    ctx.subtitle_call_ranges.insert(id, at);
}

// ---------------------------------------------------------------- laws

/// A transform leaves the body of a mobject that shows something as it is: frames before it still
/// show the old content.
pub proof fn law_transform_keeps_body(c: CtxView, call: NodeView, label: Seq<char>)
    requires
        target_label(call) == Some(label),
        c.items.contains_key(label),
        shown_body(c, label).len() > 0,
    ensures
        transform(c, call).items.contains_key(label),
        transform(c, call).items[label] == c.items[label],
{
    let (c1, _) = easing_step(c, call, label, Easing::Smooth);
    let tmp = parked_label(label, c1.xf_counter);
    reveal_strlit("__xf_");
    assert(tmp.len() > label.len());
    assert(shown_body(c1, label) == shown_body(c, label));
}

proof fn lemma_step_time(start: u32, duration: u32, n: nat, k: int)
    requires
        n > 0,
        0 <= k,
    ensures
        start <= step_time(start, duration, n, k) <= later(start, duration),
        step_time(start, duration, n, k) <= step_time(start, duration, n, k + 1),
{
    let step = (duration + n - 1) / (n as int);
    assert(step >= 0) by (nonlinear_arith)
        requires
            step == (duration + n - 1) / (n as int),
            n > 0,
    ;
    assert(0 <= k * step <= (k + 1) * step) by (nonlinear_arith)
        requires
            0 <= k,
            0 <= step,
    ;
}

pub proof fn lemma_steps(start: u32, duration: u32, s: Seq<Seq<char>>, by_word: bool, k: nat)
    ensures
        steps(start, duration, s, by_word, k).len() == k,
        forall|i: int|
            0 <= i < k ==> (#[trigger] steps(start, duration, s, by_word, k)[i]) == (SwitchView {
                at_ms: step_time(start, duration, step_count(s), i + 1),
                body: quoted(prefix(s, by_word, i + 1)),
            }),
    decreases k,
{
    if k > 0 {
        lemma_steps(start, duration, s, by_word, (k - 1) as nat);
    }
}

proof fn lemma_step_times(start: u32, duration: u32, n: nat, i: int, j: int)
    requires
        n > 0,
        0 <= i <= j,
    ensures
        step_time(start, duration, n, i) <= step_time(start, duration, n, j),
    decreases j - i,
{
    if i < j {
        lemma_step_times(start, duration, n, i, j - 1);
        lemma_step_time(start, duration, n, j - 1);
    }
}

/// A text comes up in order: the switches of a reveal never go back in time, the first shows
/// nothing at the start, and the last shows all of the text at the end.
pub proof fn law_reveal_in_order(start: u32, duration: u32, inner: Seq<char>, by_word: bool)
    ensures
        ({
            let t = reveal_switches(start, duration, inner, by_word);
            &&& t.len() >= 2
            &&& t[0] == (SwitchView { at_ms: start, body: "none"@ })
            &&& t.last() == (SwitchView { at_ms: later(start, duration), body: quoted(inner) })
            &&& forall|i: int, j: int|
                0 <= i <= j < t.len() ==> (#[trigger] t[i]).at_ms <= (#[trigger] t[j]).at_ms
        }),
{
    let s = chunks(inner, by_word);
    let n = step_count(s);
    let mid = steps(start, duration, s, by_word, n);
    lemma_steps(start, duration, s, by_word, n);
    let t = reveal_switches(start, duration, inner, by_word);
    assert forall|i: int, j: int| 0 <= i <= j < t.len() implies (#[trigger] t[i]).at_ms <= (
    #[trigger] t[j]).at_ms by {
        if 0 < i && i < t.len() - 1 {
            assert(t[i] == mid[i - 1]);
            lemma_step_time(start, duration, n, i);
        }
        if 0 < j && j < t.len() - 1 {
            assert(t[j] == mid[j - 1]);
            lemma_step_time(start, duration, n, j);
        }
        if 0 < i && j < t.len() - 1 {
            lemma_step_times(start, duration, n, i, j);
        }
    }
}

} // verus!
