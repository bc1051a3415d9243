//! The directives that animate mobjects.

use vstd::prelude::*;
use vstd::string::*;
use crate::args::{
    angle_arg, angle_step, arg_span, arg_span_of, delay_arg, duration_arg, easing_step, key_arg,
    key_step, number_or, parse_delay, parse_duration, parse_quiet_easing, parse_timing,
    quiet_easing, ratio_arg, ratio_step, read_number, read_number_or, read_string_or,
    resolve_easing, span, span_of, string_or, target_arg, target_label, timing_arg, named_number,
};
use crate::context::{bump, is_declared, next_id, CtxView, ParseCtx, ScopedName};
use crate::diag::{CandyWarn, WarnView};
use crate::easing::Easing;
use crate::expr::{
    arg_source, arg_text, bool_value, expr_to_bool, find_named_or_pos, find_named_value,
    find_pos_arg, find_pos_or_named, items, list_items, named_or_pos, named_value, opt_node,
    pair_value, pos_arg, pos_or_named, read_string, ref_views, string_value, track_key,
    track_key_from_expr, tuple_cm, TrackKey,
};
use crate::number::{
    clamp_unit, clamp_zoom, degrees, percent, unit_ratio, zoom_ratio, Angle, AngleUnit, Length,
    Number, Ratio,
};
use crate::scene::{
    lemma_seq_view_push, seq_view, Action, ActionView, AudioTrack, AudioTrackView, PathMode,
};
use crate::syntax::{Kind, Node, NodeView};
use crate::text::{decimal, join2, same, to_decimal};

verus! {

broadcast use lemma_seq_view_push;

fn one(a: Action) -> (r: Vec<Action>)
    ensures
        seq_view(r@) == seq![a@],
{
    let mut r: Vec<Action> = Vec::new();
    r.push(a);
    assert(seq_view(r@) =~= seq![a@]);
    r
}

// ---------------------------------------------------------------- mobject, play, groups

/// `mobject(label, body)`: records the source of `body` under `label`, shown from the start.
pub open spec fn mobject(c: CtxView, call: NodeView) -> CtxView {
    let (c1, key) = key_step(c, call, pos_or_named(call, 0, "label"@), "mobject label"@, true);
    match (key, pos_or_named(call, 1, "body"@)) {
        (Some(label), Some(body)) => declared(c1, call, label, body),
        _ => c1,
    }
}

/// The state with a mobject declared. A label that is already declared in the same scope gives
/// a warning, and the later body counts.
pub open spec fn declared(c: CtxView, call: NodeView, label: Seq<char>, body: NodeView) -> CtxView {
    let c1 = CtxView { label_locs: c.label_locs.insert(label, span(call)), ..c };
    let c2 = if c1.mobject_names.contains((c1.scope(), label)) {
        c1.warned(WarnView::DuplicateName("mobject"@, label, span(call)))
    } else {
        CtxView { mobject_names: c1.mobject_names.push((c1.scope(), label)), ..c1 }
    };
    let c3 = with_body_range(c2.with_item(label, arg_text(body)), label, body);
    c3.registered(label, c3.current_scene).with_initial(label, 1)
}

/// The state with the place of a mobject's body recorded.
pub open spec fn with_body_range(c: CtxView, label: Seq<char>, body: NodeView) -> CtxView {
    if body.kind == Kind::Named {
        c
    } else {
        CtxView { mobject_body_ranges: c.mobject_body_ranges.insert(label, span(body)), ..c }
    }
}

fn record_body_range(ctx: &mut ParseCtx, label: &str, body: &Node)
    ensures
        final(ctx)@ == with_body_range(old(ctx)@, label@, body@),
{
    if body.kind != Kind::Named {
        ctx.mobject_body_ranges.insert(label.to_owned(), span_of(body));
    }
}

/// `mobject(label, body)`.
pub fn process_mobject(call: &Node, ctx: &mut ParseCtx)
    ensures
        final(ctx)@ == mobject(old(ctx)@, call@),
{
    let key = key_arg(call, find_pos_or_named(call, 0, "label"), "mobject label", true, ctx);
    let label = match key {
        Some(label) => label,
        None => {
            return;
        },
    };
    let body = match find_pos_or_named(call, 1, "body") {
        Some(body) => body,
        None => {
            return;
        },
    };
    let at = span_of(call);
    ctx.label_locs.insert(label.clone(), at);
    let scope: usize = ctx.current_scope();
    if is_declared(&ctx.mobject_names, scope, label.as_str()) {
        ctx.warn(CandyWarn::DuplicateName("mobject".to_owned(), label.clone(), at));
    } else {
        ctx.mobject_names.push(ScopedName { scope, name: label.clone() });
    }
    ctx.set_item(label.as_str(), arg_source(body));
    record_body_range(ctx, label.as_str(), body);
    let scene: usize = ctx.current_scene;
    ctx.register_label(label.as_str(), scene);
    ctx.set_initial(label.as_str(), 1);
}

/// The label of the block with the given number.
pub open spec fn block_label(n: usize) -> Seq<char> {
    "__block_"@ + decimal(n as nat)
}

/// `play(body, duration:)`: a block that is shown while its slide lasts.
pub open spec fn play(c: CtxView, call: NodeView) -> CtxView {
    match pos_or_named(call, 0, "body"@) {
        None => c,
        Some(body) => {
            let label = block_label(c.block_counter);
            let c1 = CtxView { block_counter: next_id(c.block_counter), ..c }.with_item(
                label,
                arg_text(body),
            );
            let c2 = with_body_range(c1.registered(label, c1.current_scene), label, body);
            c2.with_initial(label, 0).emitted(
                None,
                0,
                duration_arg(call, 500),
                seq![ActionView::FadeIn { target: label, easing: Easing::Linear }],
            ).emitted(None, 0, 1, seq![ActionView::Hide { target: label }])
        },
    }
}

/// `play(body, duration:)`. The block is hidden again at the end, so that one after the other
/// do not overlap.
pub fn process_play(call: &Node, ctx: &mut ParseCtx)
    ensures
        final(ctx)@ == play(old(ctx)@, call@),
{
    let body = match find_pos_or_named(call, 0, "body") {
        Some(body) => body,
        None => {
            return;
        },
    };
    let duration: u32 = parse_duration(call, 500);
    let number: usize = ctx.block_counter;
    let label = join2("__block_", to_decimal(number as u64).as_str());
    ctx.block_counter = bump(number);
    ctx.set_item(label.as_str(), arg_source(body));
    let scene: usize = ctx.current_scene;
    ctx.register_label(label.as_str(), scene);
    record_body_range(ctx, label.as_str(), body);
    ctx.set_initial(label.as_str(), 0);
    let shown = one(Action::FadeIn { target: label.clone(), easing: Easing::Linear });
    ctx.emit_slide(None, 0, duration, shown);
    ctx.emit_slide(None, 0, 1, one(Action::Hide { target: label }));
}

/// The state with a mobject that has no body of its own, unless the label is taken.
pub open spec fn synthetic(c: CtxView, label: Seq<char>) -> CtxView {
    if c.items.contains_key(label) {
        c
    } else {
        c.with_item(label, "none"@).registered(label, c.current_scene).with_initial(label, 1)
    }
}

/// Registers a mobject that has no body of its own, unless the label is taken.
pub fn register_synthetic_mobject(ctx: &mut ParseCtx, label: &str)
    ensures
        final(ctx)@ == synthetic(old(ctx)@, label@),
{
    if !ctx.items.contains_key(label) {
        ctx.set_item(label, "none".to_owned());
        let scene: usize = ctx.current_scene;
        ctx.register_label(label, scene);
        ctx.set_initial(label, 1);
    }
}

/// Every string in a list of nodes made a child of `parent`.
pub open spec fn grouped(
    groups: Map<Seq<char>, Seq<char>>,
    parent: Seq<char>,
    s: Seq<NodeView>,
) -> Map<Seq<char>, Seq<char>>
    decreases s.len(),
{
    if s.len() == 0 {
        groups
    } else {
        let rest = grouped(groups, parent, s.drop_last());
        match s.last().value {
            Some(child) => rest.insert(child, parent),
            None => rest,
        }
    }
}

/// The items of an argument that is an array literal; none for anything else.
pub open spec fn literal_items(e: Option<NodeView>) -> Seq<NodeView> {
    match e {
        Some(e) => if e.kind == Kind::Array {
            items(e.children)
        } else {
            Seq::empty()
        },
        None => Seq::empty(),
    }
}

fn read_literal_items<'a>(e: Option<&'a Node>) -> (r: Vec<&'a Node>)
    ensures
        ref_views(r@) == literal_items(opt_node(e)),
{
    match e {
        Some(e) => if e.kind == Kind::Array {
            return list_items(&e.children);
        },
        None => {},
    }
    let r: Vec<&'a Node> = Vec::new();
    assert(ref_views(r@) =~= Seq::<NodeView>::empty());
    r
}

/// `group(name, members)`: `name` becomes the parent of its members.
pub open spec fn group(c: CtxView, call: NodeView) -> CtxView {
    match string_value(pos_or_named(call, 0, "name"@)) {
        None => c,
        Some(parent) => {
            let c1 = synthetic(c, parent);
            CtxView {
                groups: grouped(
                    c1.groups,
                    parent,
                    literal_items(named_or_pos(call, "members"@, 1)),
                ),
                ..c1
            }
        },
    }
}

/// `group(name, members)`. The parent is a mobject without a body; moving it moves its members.
pub fn process_group(call: &Node, ctx: &mut ParseCtx)
    ensures
        final(ctx)@ == group(old(ctx)@, call@),
{
    let parent = match read_string(find_pos_or_named(call, 0, "name")) {
        Some(parent) => parent,
        None => {
            return;
        },
    };
    register_synthetic_mobject(ctx, parent.as_str());
    let members = read_literal_items(find_named_or_pos(call, "members", 1));
    let ghost s = ref_views(members@);
    let ghost c1 = ctx@;
    let mut i: usize = 0;
    assert(s.take(0) =~= Seq::<NodeView>::empty());
    while i < members.len()
        invariant
            i <= members.len(),
            s == ref_views(members@),
            ctx@ == (CtxView { groups: grouped(c1.groups, parent@, s.take(i as int)), ..c1 }),
        decreases members.len() - i,
    {
        assert(s.take(i + 1).drop_last() =~= s.take(i as int));
        if let Some(child) = read_string(Some(members[i])) {
            ctx.groups.insert(child, parent.clone());
        }
        i += 1;
    }
    assert(s.take(s.len() as int) =~= s);
}

// ---------------------------------------------------------------- animate, pause, audio

/// A list with one more element, where there is one.
pub open spec fn with_some(s: Seq<ActionView>, a: Option<ActionView>) -> Seq<ActionView> {
    match a {
        Some(a) => s.push(a),
        None => s,
    }
}

fn push_some(v: &mut Vec<Action>, a: Option<Action>)
    ensures
        seq_view(final(v)@) == with_some(
            seq_view(old(v)@),
            match a {
                Some(a) => Some(a@),
                None => None,
            },
        ),
{
    if let Some(a) = a {
        v.push(a);
    }
}

/// The moves that `animate` asks for: to a place, by a distance.
pub open spec fn moves(call: NodeView, label: Seq<char>, easing: Easing) -> Seq<ActionView> {
    let to = match pair_value(named_value(call, "to"@)) {
        Some(p) => Some(ActionView::MoveTo { target: label, to: p, easing }),
        None => None,
    };
    let by = if named_number(call, "dx"@) is Some || named_number(call, "dy"@) is Some {
        Some(
            ActionView::MoveBy {
                target: label,
                delta: (number_or(call, "dx"@, 0), number_or(call, "dy"@, 0)),
                easing,
            },
        )
    } else {
        None
    };
    with_some(with_some(Seq::empty(), to), by)
}

fn read_moves(call: &Node, label: &str, easing: Easing) -> (r: Vec<Action>)
    ensures
        seq_view(r@) == moves(call@, label@, easing),
{
    let mut actions: Vec<Action> = Vec::new();
    assert(seq_view(actions@) =~= Seq::<ActionView>::empty());
    let to = match tuple_cm(find_named_value(call, "to")) {
        Some(p) => Some(Action::MoveTo { target: label.to_owned(), to: p, easing }),
        None => None,
    };
    push_some(&mut actions, to);
    let by = if read_number(call, "dx").is_some() || read_number(call, "dy").is_some() {
        Some(
            Action::MoveBy {
                target: label.to_owned(),
                delta: (read_number_or(call, "dx", 0), read_number_or(call, "dy", 0)),
                easing,
            },
        )
    } else {
        None
    };
    push_some(&mut actions, by);
    actions
}

/// `animate(target, to:, dx:, dy:, scale:, scale-by:, rotate:, rotate-by:, opacity:, duration:,
/// easing:)`: one slide with an action for each thing that is asked for.
pub open spec fn animate(c: CtxView, call: NodeView) -> CtxView {
    match target_label(call) {
        None => c,
        Some(label) => {
            let (c1, easing) = easing_step(c, call, label, Easing::Smooth);
            let (c2, scale) = ratio_step(c1, call, "scale"@);
            let (c3, scale_by) = ratio_step(c2, call, "scale-by"@);
            let (c4, rotate) = angle_step(c3, call, "rotate"@);
            let (c5, rotate_by) = angle_step(c4, call, "rotate-by"@);
            let (c6, opacity) = ratio_step(c5, call, "opacity"@);
            let a0 = moves(call, label, easing);
            let a1 = with_some(
                a0,
                match scale {
                    Some(to) => Some(ActionView::Scale { target: label, to, easing }),
                    None => None,
                },
            );
            let a2 = with_some(
                a1,
                match scale_by {
                    Some(factor) => Some(ActionView::ScaleBy { target: label, factor, easing }),
                    None => None,
                },
            );
            let a3 = with_some(
                a2,
                match rotate {
                    Some(degrees) => Some(ActionView::Rotate { target: label, degrees, easing }),
                    None => None,
                },
            );
            let a4 = with_some(
                a3,
                match rotate_by {
                    Some(d) => Some(
                        ActionView::RotateBy { target: label, delta_degrees: d, easing },
                    ),
                    None => None,
                },
            );
            let a5 = with_some(
                a4,
                match opacity {
                    Some(o) => Some(
                        ActionView::FadeTo { target: label, opacity: unit_ratio(o), easing },
                    ),
                    None => None,
                },
            );
            c6.emitted(timing_arg(call), delay_arg(call), duration_arg(call, 500), a5)
        },
    }
}

/// `animate(target, ...)`.
pub fn process_animate(call: &Node, ctx: &mut ParseCtx)
    ensures
        final(ctx)@ == animate(old(ctx)@, call@),
{
    let label = match target_arg(call) {
        Some(label) => label,
        None => {
            return;
        },
    };
    let duration: u32 = parse_duration(call, 500);
    let easing = resolve_easing(call, label.as_str(), Easing::Smooth, ctx);
    let mut actions = read_moves(call, label.as_str(), easing);
    let scale = match ratio_arg(call, "scale", ctx) {
        Some(to) => Some(Action::Scale { target: label.clone(), to, easing }),
        None => None,
    };
    push_some(&mut actions, scale);
    let scale_by = match ratio_arg(call, "scale-by", ctx) {
        Some(factor) => Some(Action::ScaleBy { target: label.clone(), factor, easing }),
        None => None,
    };
    push_some(&mut actions, scale_by);
    let rotate = match angle_arg(call, "rotate", ctx) {
        Some(degrees) => Some(Action::Rotate { target: label.clone(), degrees, easing }),
        None => None,
    };
    push_some(&mut actions, rotate);
    let rotate_by = match angle_arg(call, "rotate-by", ctx) {
        Some(d) => Some(Action::RotateBy { target: label.clone(), delta_degrees: d, easing }),
        None => None,
    };
    push_some(&mut actions, rotate_by);
    let fade = match ratio_arg(call, "opacity", ctx) {
        Some(o) => Some(Action::FadeTo { target: label.clone(), opacity: clamp_unit(o), easing }),
        None => None,
    };
    push_some(&mut actions, fade);
    ctx.emit_slide(parse_timing(call), parse_delay(call), duration, actions);
}

/// `pause(duration:)`: a slide on which nothing happens.
pub open spec fn pause(c: CtxView, call: NodeView) -> CtxView {
    c.emitted(None, 0, duration_arg(call, 500), Seq::empty())
}

/// `pause(duration:)`.
pub fn process_pause(call: &Node, ctx: &mut ParseCtx)
    ensures
        final(ctx)@ == pause(old(ctx)@, call@),
{
    let nothing: Vec<Action> = Vec::new();
    assert(seq_view(nothing@) =~= Seq::<ActionView>::empty());
    ctx.emit_slide(None, 0, parse_duration(call, 500), nothing);
}

/// A named truth value; false where it is not given.
pub open spec fn flag(call: NodeView, name: Seq<char>) -> bool {
    match bool_value(named_value(call, name)) {
        Some(b) => b,
        None => false,
    }
}

fn read_flag(call: &Node, name: &str) -> (r: bool)
    ensures
        r == flag(call@, name@),
{
    match expr_to_bool(find_named_value(call, name)) {
        Some(b) => b,
        None => false,
    }
}

/// `audio(path, blocking:, loop:, volume:, slice:)`: a track that plays alongside.
pub open spec fn audio(c: CtxView, call: NodeView) -> CtxView {
    match string_value(pos_arg(call, 0)) {
        None => c,
        Some(path) => CtxView {
            audio: c.audio.push(
                AudioTrackView {
                    path,
                    start_ms: c.start_of(timing_arg(call), delay_arg(call)),
                    blocking: flag(call, "blocking"@),
                    loop_track: flag(call, "loop"@),
                    volume: number_or(call, "volume"@, 1),
                    slice: pair_value(named_value(call, "slice"@)),
                },
            ),
            ..c
        },
    }
}

/// `audio(path, ...)`.
pub fn process_audio(call: &Node, ctx: &mut ParseCtx)
    ensures
        final(ctx)@ == audio(old(ctx)@, call@),
{
    let path = match read_string(find_pos_arg(call, 0)) {
        Some(path) => path,
        None => {
            return;
        },
    };
    let start_ms: u32 = ctx.audio_start(parse_timing(call), parse_delay(call));
    let track = AudioTrack {
        path,
        start_ms,
        blocking: read_flag(call, "blocking"),
        loop_track: read_flag(call, "loop"),
        volume: read_number_or(call, "volume", 1),
        slice: tuple_cm(find_named_value(call, "slice")),
    };
    ctx.audio.push(track);
}

// ---------------------------------------------------------------- single-slide directives

/// `save-state(target, slot:)`: remembers the state of the target.
pub open spec fn save_state(c: CtxView, call: NodeView) -> CtxView {
    match target_label(call) {
        None => c,
        Some(label) => c.emitted(
            timing_arg(call),
            delay_arg(call),
            1,
            seq![
                ActionView::SaveState {
                    target: label,
                    slot: string_or(call, "slot"@, "default"@),
                },
            ],
        ),
    }
}

/// `save-state(target, slot:)`.
pub fn process_save_state(call: &Node, ctx: &mut ParseCtx)
    ensures
        final(ctx)@ == save_state(old(ctx)@, call@),
{
    if let Some(target) = target_arg(call) {
        let slot = read_string_or(call, "slot", "default");
        let actions = one(Action::SaveState { target, slot });
        ctx.emit_slide(parse_timing(call), parse_delay(call), 1, actions);
    }
}

/// `restore(target, slot:, duration:, easing:)`: goes back to a remembered state.
pub open spec fn restore(c: CtxView, call: NodeView) -> CtxView {
    match target_label(call) {
        None => c,
        Some(label) => {
            let (c1, easing) = easing_step(c, call, label, Easing::Smooth);
            c1.emitted(
                timing_arg(call),
                delay_arg(call),
                duration_arg(call, 500),
                seq![
                    ActionView::Restore {
                        target: label,
                        slot: string_or(call, "slot"@, "default"@),
                        easing,
                    },
                ],
            )
        },
    }
}

/// `restore(target, slot:, duration:, easing:)`.
pub fn process_restore(call: &Node, ctx: &mut ParseCtx)
    ensures
        final(ctx)@ == restore(old(ctx)@, call@),
{
    if let Some(target) = target_arg(call) {
        let slot = read_string_or(call, "slot", "default");
        let duration: u32 = parse_duration(call, 500);
        let easing = resolve_easing(call, target.as_str(), Easing::Smooth, ctx);
        let actions = one(Action::Restore { target, slot, easing });
        ctx.emit_slide(parse_timing(call), parse_delay(call), duration, actions);
    }
}

/// A ratio, or another one in its place.
pub open spec fn ratio_or(r: Option<Ratio>, default: i64) -> Ratio {
    match r {
        Some(r) => r,
        None => percent(default),
    }
}

fn or_percent(r: Option<Ratio>, default: i64) -> (v: Ratio)
    ensures
        v == ratio_or(r, default),
{
    match r {
        Some(r) => r,
        None => Ratio { percent: Number::Int(default) },
    }
}

/// An angle, or another one in its place.
pub open spec fn angle_or(a: Option<Angle>, default: i64) -> Angle {
    match a {
        Some(a) => a,
        None => degrees(default),
    }
}

fn or_degrees(a: Option<Angle>, default: i64) -> (v: Angle)
    ensures
        v == angle_or(a, default),
{
    match a {
        Some(a) => a,
        None => Angle { value: Number::Int(default), unit: AngleUnit::Deg },
    }
}

/// `indicate(target, factor:, dx:, dy:, duration:, easing:)`: a short swell and shift.
pub open spec fn indicate(c: CtxView, call: NodeView) -> CtxView {
    match target_label(call) {
        None => c,
        Some(label) => {
            let (c1, factor) = ratio_step(c, call, "factor"@);
            let (c2, easing) = easing_step(c1, call, label, Easing::Smooth);
            c2.emitted(
                timing_arg(call),
                delay_arg(call),
                duration_arg(call, 300),
                seq![
                    ActionView::Indicate {
                        target: label,
                        factor: ratio_or(factor, 110),
                        dx: number_or(call, "dx"@, 0),
                        dy: number_or(call, "dy"@, 0),
                        easing,
                    },
                ],
            )
        },
    }
}

/// `indicate(target, factor:, dx:, dy:, duration:, easing:)`.
pub fn process_indicate(call: &Node, ctx: &mut ParseCtx)
    ensures
        final(ctx)@ == indicate(old(ctx)@, call@),
{
    if let Some(target) = target_arg(call) {
        let duration: u32 = parse_duration(call, 300);
        let factor = or_percent(ratio_arg(call, "factor", ctx), 110);
        let dx = read_number_or(call, "dx", 0);
        let dy = read_number_or(call, "dy", 0);
        let easing = resolve_easing(call, target.as_str(), Easing::Smooth, ctx);
        let actions = one(Action::Indicate { target, factor, dx, dy, easing });
        ctx.emit_slide(parse_timing(call), parse_delay(call), duration, actions);
    }
}

/// `flash(target, factor:, duration:, easing:)`: a short swell and fade.
pub open spec fn flash(c: CtxView, call: NodeView) -> CtxView {
    match target_label(call) {
        None => c,
        Some(label) => {
            let (c1, factor) = ratio_step(c, call, "factor"@);
            let (c2, easing) = easing_step(c1, call, label, Easing::Smooth);
            c2.emitted(
                timing_arg(call),
                delay_arg(call),
                duration_arg(call, 200),
                seq![ActionView::Flash { target: label, factor: ratio_or(factor, 200), easing }],
            )
        },
    }
}

/// `flash(target, factor:, duration:, easing:)`.
pub fn process_flash(call: &Node, ctx: &mut ParseCtx)
    ensures
        final(ctx)@ == flash(old(ctx)@, call@),
{
    if let Some(target) = target_arg(call) {
        let duration: u32 = parse_duration(call, 200);
        let factor = or_percent(ratio_arg(call, "factor", ctx), 200);
        let easing = resolve_easing(call, target.as_str(), Easing::Smooth, ctx);
        let actions = one(Action::Flash { target, factor, easing });
        ctx.emit_slide(parse_timing(call), parse_delay(call), duration, actions);
    }
}

/// `wiggle(target, degrees:, duration:, easing:)`: a rotation to and fro.
pub open spec fn wiggle(c: CtxView, call: NodeView) -> CtxView {
    match target_label(call) {
        None => c,
        Some(label) => {
            let (c1, d) = angle_step(c, call, "degrees"@);
            let (c2, easing) = easing_step(c1, call, label, Easing::Wiggle);
            c2.emitted(
                timing_arg(call),
                delay_arg(call),
                duration_arg(call, 500),
                seq![ActionView::Wiggle { target: label, degrees: angle_or(d, 15), easing }],
            )
        },
    }
}

/// `wiggle(target, degrees:, duration:, easing:)`.
pub fn process_wiggle(call: &Node, ctx: &mut ParseCtx)
    ensures
        final(ctx)@ == wiggle(old(ctx)@, call@),
{
    if let Some(target) = target_arg(call) {
        let duration: u32 = parse_duration(call, 500);
        let degrees = or_degrees(angle_arg(call, "degrees", ctx), 15);
        let easing = resolve_easing(call, target.as_str(), Easing::Wiggle, ctx);
        let actions = one(Action::Wiggle { target, degrees, easing });
        ctx.emit_slide(parse_timing(call), parse_delay(call), duration, actions);
    }
}

/// `appear(target)` and `disappear(target)`: only the first argument names the target.
pub open spec fn appear_disappear(c: CtxView, call: NodeView, appear: bool) -> CtxView {
    match string_value(pos_arg(call, 0)) {
        None => c,
        Some(label) => c.emitted(
            timing_arg(call),
            delay_arg(call),
            1,
            seq![
                if appear {
                    ActionView::Show { target: label }
                } else {
                    ActionView::Hide { target: label }
                },
            ],
        ),
    }
}

/// `appear(target)` and `disappear(target)`.
pub fn process_appear_disappear(call: &Node, appear: bool, ctx: &mut ParseCtx)
    ensures
        final(ctx)@ == appear_disappear(old(ctx)@, call@, appear),
{
    if let Some(target) = read_string(find_pos_arg(call, 0)) {
        let actions = if appear {
            one(Action::Show { target })
        } else {
            one(Action::Hide { target })
        };
        ctx.emit_slide(parse_timing(call), parse_delay(call), 1, actions);
    }
}

/// The `color` argument: a string as it is, anything else as its source text; black where there
/// is nothing.
pub open spec fn color_arg(call: NodeView) -> Seq<char> {
    match named_value(call, "color"@) {
        None => "black"@,
        Some(e) => {
            let s = match e.value {
                Some(s) => s,
                None => arg_text(e),
            };
            if s.len() == 0 {
                "black"@
            } else {
                s
            }
        },
    }
}

fn read_color(call: &Node) -> (r: String)
    ensures
        r@ == color_arg(call@),
{
    match find_named_value(call, "color") {
        None => "black".to_owned(),
        Some(e) => {
            let s = match &e.value {
                Some(s) => s.clone(),
                None => arg_source(e),
            };
            if s.as_str().is_empty() {
                "black".to_owned()
            } else {
                s
            }
        },
    }
}

/// `set-color(target, color:, duration:, easing:)`: fades to another color.
pub open spec fn set_color(c: CtxView, call: NodeView) -> CtxView {
    match target_label(call) {
        None => c,
        Some(label) => {
            let (c1, easing) = easing_step(c, call, label, Easing::Linear);
            c1.emitted(
                timing_arg(call),
                delay_arg(call),
                duration_arg(call, 1),
                seq![ActionView::SetColor { target: label, color: color_arg(call), easing }],
            )
        },
    }
}

/// `set-color(target, color:, duration:, easing:)`.
pub fn process_set_color(call: &Node, ctx: &mut ParseCtx)
    ensures
        final(ctx)@ == set_color(old(ctx)@, call@),
{
    if let Some(target) = target_arg(call) {
        let color = read_color(call);
        let duration: u32 = parse_duration(call, 1);
        let easing = resolve_easing(call, target.as_str(), Easing::Linear, ctx);
        let actions = one(Action::SetColor { target, color, easing });
        ctx.emit_slide(parse_timing(call), parse_delay(call), duration, actions);
    }
}

/// `focus-on(target, factor:, duration:, easing:)`: enlarges the target.
pub open spec fn focus_on(c: CtxView, call: NodeView) -> CtxView {
    match target_label(call) {
        None => c,
        Some(label) => {
            let (c1, factor) = ratio_step(c, call, "factor"@);
            let (c2, easing) = easing_step(c1, call, label, Easing::Smooth);
            c2.emitted(
                timing_arg(call),
                delay_arg(call),
                duration_arg(call, 300),
                seq![ActionView::ScaleBy { target: label, factor: ratio_or(factor, 125), easing }],
            )
        },
    }
}

/// `focus-on(target, factor:, duration:, easing:)`.
pub fn process_focus_on(call: &Node, ctx: &mut ParseCtx)
    ensures
        final(ctx)@ == focus_on(old(ctx)@, call@),
{
    if let Some(target) = target_arg(call) {
        let factor = or_percent(ratio_arg(call, "factor", ctx), 125);
        let duration: u32 = parse_duration(call, 300);
        let easing = resolve_easing(call, target.as_str(), Easing::Smooth, ctx);
        let actions = one(Action::ScaleBy { target, factor, easing });
        ctx.emit_slide(parse_timing(call), parse_delay(call), duration, actions);
    }
}

/// The pairs of lengths in a list of nodes, in order; what is no pair is left out.
pub open spec fn points(s: Seq<NodeView>) -> Seq<(Length, Length)>
    decreases s.len(),
{
    if s.len() == 0 {
        Seq::empty()
    } else {
        let rest = points(s.drop_last());
        match pair_value(Some(s.last())) {
            Some(p) => rest.push(p),
            None => rest,
        }
    }
}

fn read_points(v: &Vec<&Node>) -> (r: Vec<(Length, Length)>)
    ensures
        r@ == points(ref_views(v@)),
{
    let ghost s = ref_views(v@);
    let mut r: Vec<(Length, Length)> = Vec::new();
    let mut i: usize = 0;
    assert(s.take(0) =~= Seq::<NodeView>::empty());
    while i < v.len()
        invariant
            i <= v.len(),
            s == ref_views(v@),
            r@ == points(s.take(i as int)),
        decreases v.len() - i,
    {
        assert(s.take(i + 1).drop_last() =~= s.take(i as int));
        if let Some(p) = tuple_cm(Some(v[i])) {
            r.push(p);
        }
        i += 1;
    }
    assert(s.take(s.len() as int) =~= s);
    r
}

/// `move-along-path(target, path, duration:, easing:, mode:, orient:)`: a move through points.
pub open spec fn move_along_path(c: CtxView, call: NodeView) -> CtxView {
    match target_label(call) {
        None => c,
        Some(label) => {
            let (c1, easing) = easing_step(c, call, label, Easing::Linear);
            let path = points(literal_items(named_or_pos(call, "path"@, 1)));
            if path.len() == 0 {
                c1
            } else {
                c1.emitted(
                    timing_arg(call),
                    delay_arg(call),
                    duration_arg(call, 500),
                    seq![
                        ActionView::MoveAlongPath {
                            target: label,
                            points: path,
                            mode: if string_value(named_value(call, "mode"@)) == Some("bezier"@) {
                                PathMode::Bezier
                            } else {
                                PathMode::Polyline
                            },
                            orient: flag(call, "orient"@),
                            easing,
                        },
                    ],
                )
            }
        },
    }
}

/// `move-along-path(target, path, ...)`.
pub fn process_move_along_path(call: &Node, ctx: &mut ParseCtx)
    ensures
        final(ctx)@ == move_along_path(old(ctx)@, call@),
{
    if let Some(target) = target_arg(call) {
        let duration: u32 = parse_duration(call, 500);
        let easing = resolve_easing(call, target.as_str(), Easing::Linear, ctx);
        let path = read_points(&read_literal_items(find_named_or_pos(call, "path", 1)));
        if path.len() == 0 {
            return;
        }
        let mode = match read_string(find_named_value(call, "mode")) {
            Some(s) => if same(s.as_str(), "bezier") {
                PathMode::Bezier
            } else {
                PathMode::Polyline
            },
            None => PathMode::Polyline,
        };
        let orient = read_flag(call, "orient");
        let actions = one(Action::MoveAlongPath { target, points: path, mode, orient, easing });
        ctx.emit_slide(parse_timing(call), parse_delay(call), duration, actions);
    }
}

/// The keyframes in a list of nodes, in order; what is none is left out.
pub open spec fn track_keys(s: Seq<NodeView>) -> Seq<TrackKey>
    decreases s.len(),
{
    if s.len() == 0 {
        Seq::empty()
    } else {
        let rest = track_keys(s.drop_last());
        match track_key(s.last()) {
            Some(k) => rest.push(k),
            None => rest,
        }
    }
}

fn read_track_keys(v: &Vec<&Node>) -> (r: Vec<TrackKey>)
    ensures
        r@ == track_keys(ref_views(v@)),
{
    let ghost s = ref_views(v@);
    let mut r: Vec<TrackKey> = Vec::new();
    let mut i: usize = 0;
    assert(s.take(0) =~= Seq::<NodeView>::empty());
    while i < v.len()
        invariant
            i <= v.len(),
            s == ref_views(v@),
            r@ == track_keys(s.take(i as int)),
        decreases v.len() - i,
    {
        assert(s.take(i + 1).drop_last() =~= s.take(i as int));
        if let Some(k) = track_key_from_expr(v[i]) {
            r.push(k);
        }
        i += 1;
    }
    assert(s.take(s.len() as int) =~= s);
    r
}

/// `track(target, keys, duration:, easing:)`: a run through keyframes.
pub open spec fn track(c: CtxView, call: NodeView) -> CtxView {
    match target_label(call) {
        None => c,
        Some(label) => {
            let (c1, easing) = easing_step(c, call, label, Easing::Smooth);
            let keyframes = track_keys(literal_items(named_or_pos(call, "keys"@, 1)));
            if keyframes.len() == 0 {
                c1
            } else {
                c1.emitted(
                    timing_arg(call),
                    delay_arg(call),
                    duration_arg(call, 1000),
                    seq![ActionView::Track { target: label, keyframes, easing }],
                )
            }
        },
    }
}

/// `track(target, keys, duration:, easing:)`.
pub fn process_track(call: &Node, ctx: &mut ParseCtx)
    ensures
        final(ctx)@ == track(old(ctx)@, call@),
{
    if let Some(target) = target_arg(call) {
        let duration: u32 = parse_duration(call, 1000);
        let easing = resolve_easing(call, target.as_str(), Easing::Smooth, ctx);
        let keyframes = read_track_keys(&read_literal_items(find_named_or_pos(call, "keys", 1)));
        if keyframes.len() == 0 {
            return;
        }
        let actions = one(Action::Track { target, keyframes, easing });
        ctx.emit_slide(parse_timing(call), parse_delay(call), duration, actions);
    }
}

/// `camera(x:, y:, zoom:, rotate:, duration:, easing:)`: pans, zooms and tilts everything.
pub open spec fn camera(c: CtxView, call: NodeView) -> CtxView {
    let (c1, zoom) = ratio_step(c, call, "zoom"@);
    let (c2, rotate) = angle_step(c1, call, "rotate"@);
    synthetic(c2, "__camera__"@).emitted(
        None,
        0,
        duration_arg(call, 1000),
        seq![
            ActionView::Camera {
                target: "__camera__"@,
                x: number_or(call, "x"@, 0),
                y: number_or(call, "y"@, 0),
                zoom: zoom_ratio(ratio_or(zoom, 100)),
                rotate: angle_or(rotate, 0),
                easing: quiet_easing(call),
            },
        ],
    )
}

/// `camera(x:, y:, zoom:, rotate:, duration:, easing:)`.
pub fn process_camera(call: &Node, ctx: &mut ParseCtx)
    ensures
        final(ctx)@ == camera(old(ctx)@, call@),
{
    let duration: u32 = parse_duration(call, 1000);
    let easing = parse_quiet_easing(call);
    let x = read_number_or(call, "x", 0);
    let y = read_number_or(call, "y", 0);
    let zoom = clamp_zoom(or_percent(ratio_arg(call, "zoom", ctx), 100));
    let rotate = or_degrees(angle_arg(call, "rotate", ctx), 0);
    register_synthetic_mobject(ctx, "__camera__");
    let target = "__camera__".to_owned();
    let actions = one(Action::Camera { target, x, y, zoom, rotate, easing });
    ctx.emit_slide(None, 0, duration, actions);
}

/// `scene-switch(target:, duration:, easing:)`: playback goes on in another scene.
pub open spec fn scene_switch(c: CtxView, call: NodeView) -> CtxView {
    let e = crate::expr::either(named_value(call, "target"@), named_value(call, "name"@));
    match e {
        None => c,
        Some(e) => match e.value {
            None => c,
            Some(target) => {
                let wanted = crate::number::clamped_floor(
                    number_or(call, "duration"@, 0),
                    u32::MAX as nat,
                ) as u32;
                let c1 = CtxView {
                    scene_switch_locs: c.scene_switch_locs.insert(target, arg_span(call, e)),
                    ..c
                };
                c1.emitted(
                    None,
                    0,
                    if wanted < 1 {
                        1
                    } else {
                        wanted
                    },
                    seq![
                        ActionView::SceneSwitch {
                            target,
                            duration_ms: wanted,
                            easing: quiet_easing(call),
                        },
                    ],
                )
            },
        },
    }
}

/// `scene-switch(target:, duration:, easing:)`. The switch takes at least a millisecond, so that
/// it has a slide.
pub fn process_scene_switch(call: &Node, ctx: &mut ParseCtx)
    ensures
        final(ctx)@ == scene_switch(old(ctx)@, call@),
{
    let e = match find_named_value(call, "target") {
        Some(e) => Some(e),
        None => find_named_value(call, "name"),
    };
    if let Some(e) = e {
        if let Some(target) = read_string(Some(e)) {
            ctx.scene_switch_locs.insert(target.clone(), arg_span_of(call, e));
            let wanted: u32 = crate::number::number_to_u32(read_number_or(call, "duration", 0));
            let duration: u32 = if wanted < 1 {
                1
            } else {
                wanted
            };
            let easing = parse_quiet_easing(call);
            let actions = one(Action::SceneSwitch { target, duration_ms: wanted, easing });
            ctx.emit_slide(None, 0, duration, actions);
        }
    }
}

} // verus!
