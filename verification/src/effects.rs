//! What each directive does, told by its name.

use vstd::prelude::*;
use crate::args::{
    angle_step, delay_arg, duration_arg, easing_step, number_or, ratio_step, target_label,
    timing_arg,
};
use crate::arguments::{
    array_of, given, law_missing_argument, law_named_argument, law_pair, withheld,
};
use crate::context::CtxView;
use crate::directives::{
    animate, appear_disappear, camera, flag, flash, focus_on, indicate, move_along_path, pause,
    restore, save_state, scene_switch, set_color, track, wiggle, with_some,
};
use crate::dispatch::{
    is_animate, is_appear, is_blink, is_camera, is_disappear, is_flash, is_focus_on, is_indicate,
    is_move_along_path, is_pause, is_restore, is_reveal, is_save_state, is_scene_switch,
    is_set_color, is_spiral_in, is_track, is_transform, is_typewriter, is_wiggle,
};
use crate::easing::{easing_named, Easing};
use crate::expr::{
    angle_value, arg_text, length_value, named_or_pos, named_value, number_value, pair_value,
    pos_arg, ratio_value, string_value, track_key,
};
use crate::number::{unit_ratio, Angle, AngleUnit, Length, Number, Ratio};
use crate::scene::{ActionView, PathMode, Timing};
use crate::syntax::NodeView;
use crate::walk::directive;

verus! {

// ---------------------------------------------------------------- times

/// A time, or the last one that can be told.
pub open spec fn capped(t: int) -> int {
    if t > u32::MAX {
        u32::MAX as int
    } else {
        t
    }
}

/// When a directive starts: with the one before it or after everything, and later by its delay.
pub open spec fn entry_start(c: CtxView, call: NodeView) -> int {
    capped(
        delay_arg(call) + if timing_arg(call) == Some(Timing::With) {
            c.timeline_start as int
        } else {
            c.cursor as int
        },
    )
}

/// Whether a slide was added behind the others, from `start` on, and the timeline reaches at least
/// to its end: what comes after it starts when it is over, what comes with it starts when it does.
pub open spec fn slide_added(c: CtxView, d: CtxView, start: int, duration: int) -> bool {
    &&& d.slides.len() == c.slides.len() + 1
    &&& d.slides.drop_last() == c.slides
    &&& d.slides.last().start_ms == start
    &&& d.slides.last().duration_ms == duration
    &&& d.timeline_start == start
    &&& d.cursor == if c.cursor > capped(start + duration) {
        c.cursor as int
    } else {
        capped(start + duration)
    }
}

/// Whether only the timeline differs, and what the author is told.
pub open spec fn only_time(c: CtxView, d: CtxView) -> bool {
    d == (CtxView {
        slides: d.slides,
        timeline_start: d.timeline_start,
        entry_end: d.entry_end,
        cursor: d.cursor,
        warnings: d.warnings,
        pending_error: d.pending_error,
        ..c
    })
}

/// The easing that a call names, or the default; linear where there is none of that name.
pub open spec fn eased(call: NodeView, default: Easing) -> Easing {
    match string_value(named_value(call, "easing"@)) {
        None => default,
        Some(s) => match easing_named(s) {
            Some(e) => e,
            None => Easing::Linear,
        },
    }
}

/// Whether a directive does one thing, on one slide of its own.
pub open spec fn does(
    c: CtxView,
    d: CtxView,
    start: int,
    duration: int,
    action: ActionView,
) -> bool {
    &&& slide_added(c, d, start, duration)
    &&& d.slides.last().actions.len() == 1
    &&& d.slides.last().actions[0] == action
    &&& d.slides.last().loc == c.current_directive_loc
    &&& only_time(c, d)
}

/// The number of whole percent.
pub open spec fn whole_percent(n: i64) -> Ratio {
    Ratio { percent: Number::Int(n) }
}

/// An angle in whole degrees.
pub open spec fn whole_degrees(n: i64) -> Angle {
    Angle { value: Number::Int(n), unit: AngleUnit::Deg }
}

/// A ratio that a call names, or the default.
pub open spec fn ratio_given(call: NodeView, name: Seq<char>, default: Ratio) -> Ratio {
    match ratio_value(named_value(call, name)) {
        Some(r) => r,
        None => default,
    }
}

/// An angle that a call names, or the default.
pub open spec fn angle_given(call: NodeView, name: Seq<char>, default: Angle) -> Angle {
    match angle_value(named_value(call, name)) {
        Some(a) => a,
        None => default,
    }
}

// ---------------------------------------------------------------- animate

/// Whether a call of `animate` asks for an action.
pub open spec fn asks_for(call: NodeView, label: Seq<char>, a: ActionView) -> bool {
    let e = eased(call, Easing::Smooth);
    match a {
        ActionView::MoveTo { target, to, easing } => target == label && easing == e && pair_value(
            named_value(call, "to"@),
        ) == Some(to),
        ActionView::MoveBy { target, delta, easing } => {
            let dx = number_value(named_value(call, "dx"@));
            let dy = number_value(named_value(call, "dy"@));
            &&& target == label && easing == e
            &&& dx is Some || dy is Some
            &&& if dx is Some { delta.0 == dx->0 } else { delta.0 == Number::Int(0) }
            &&& if dy is Some { delta.1 == dy->0 } else { delta.1 == Number::Int(0) }
        },
        ActionView::Scale { target, to, easing } => target == label && easing == e && ratio_value(
            named_value(call, "scale"@),
        ) == Some(to),
        ActionView::ScaleBy { target, factor, easing } => target == label && easing == e
            && ratio_value(named_value(call, "scale-by"@)) == Some(factor),
        ActionView::Rotate { target, degrees, easing } => target == label && easing == e
            && angle_value(named_value(call, "rotate"@)) == Some(degrees),
        ActionView::RotateBy { target, delta_degrees, easing } => target == label && easing == e
            && angle_value(named_value(call, "rotate-by"@)) == Some(delta_degrees),
        ActionView::FadeTo { target, opacity, easing } => target == label && easing == e && (
        ratio_value(named_value(call, "opacity"@)) matches Some(o) && opacity
            == unit_ratio(o)),
        _ => false,
    }
}

proof fn lemma_contains_push(s: Seq<ActionView>, a: ActionView)
    ensures
        forall|x: ActionView| #[trigger] s.push(a).contains(x) <==> s.contains(x) || x == a,
{
    let t = s.push(a);
    assert forall|x: ActionView| #[trigger] t.contains(x) implies s.contains(x) || x == a by {
        let i = choose|i: int| 0 <= i < t.len() && t[i] == x;
        if i < s.len() {
            assert(s[i] == x);
        }
    }
    assert forall|x: ActionView| s.contains(x) || x == a implies #[trigger] t.contains(x) by {
        if x == a {
            assert(t[s.len() as int] == x);
        } else {
            let i = choose|i: int| 0 <= i < s.len() && s[i] == x;
            assert(t[i] == x);
        }
    }
}

proof fn lemma_with_some(s: Seq<ActionView>, a: Option<ActionView>)
    ensures
        forall|x: ActionView| #[trigger]
            with_some(s, a).contains(x) <==> s.contains(x) || a == Some(x),
{
    if let Some(v) = a {
        lemma_contains_push(s, v);
    }
}

/// Whether only what the author is told differs.
spec fn only_told(c: CtxView, d: CtxView) -> bool {
    d == (CtxView { warnings: d.warnings, pending_error: d.pending_error, ..c })
}

proof fn lemma_told(c: CtxView, call: NodeView, name: Seq<char>, label: Seq<char>, default: Easing)
    ensures
        only_told(c, easing_step(c, call, label, default).0),
        easing_step(c, call, label, default).1 == eased(call, default),
        only_told(c, ratio_step(c, call, name).0),
        ratio_step(c, call, name).1 == ratio_value(named_value(call, name)),
        only_told(c, angle_step(c, call, name).0),
        angle_step(c, call, name).1 == angle_value(named_value(call, name)),
{
}

proof fn lemma_emitted(
    c: CtxView,
    d: CtxView,
    call: NodeView,
    duration: u32,
    actions: Seq<ActionView>,
)
    requires
        only_told(c, d),
    ensures
        ({
            let e = d.emitted(timing_arg(call), delay_arg(call), duration, actions);
            &&& slide_added(c, e, entry_start(c, call), duration as int)
            &&& only_time(c, e)
            &&& e.slides.last().actions == actions
            &&& e.slides.last().loc == c.current_directive_loc
        }),
{
    let e = d.emitted(timing_arg(call), delay_arg(call), duration, actions);
    assert(e.slides.drop_last() =~= c.slides);
}

/// The actions that a call of `animate` asks for, in their order.
spec fn asked(call: NodeView, label: Seq<char>) -> Seq<ActionView> {
    let easing = eased(call, Easing::Smooth);
    let s1 = crate::directives::moves(call, label, easing);
    let s2 = with_some(
        s1,
        match ratio_value(named_value(call, "scale"@)) {
            Some(to) => Some(ActionView::Scale { target: label, to, easing }),
            None => None,
        },
    );
    let s3 = with_some(
        s2,
        match ratio_value(named_value(call, "scale-by"@)) {
            Some(factor) => Some(ActionView::ScaleBy { target: label, factor, easing }),
            None => None,
        },
    );
    let s4 = with_some(
        s3,
        match angle_value(named_value(call, "rotate"@)) {
            Some(degrees) => Some(ActionView::Rotate { target: label, degrees, easing }),
            None => None,
        },
    );
    let s5 = with_some(
        s4,
        match angle_value(named_value(call, "rotate-by"@)) {
            Some(d) => Some(ActionView::RotateBy { target: label, delta_degrees: d, easing }),
            None => None,
        },
    );
    with_some(
        s5,
        match ratio_value(named_value(call, "opacity"@)) {
            Some(o) => Some(ActionView::FadeTo { target: label, opacity: unit_ratio(o), easing }),
            None => None,
        },
    )
}

proof fn lemma_animate(c: CtxView, call: NodeView, label: Seq<char>)
    requires
        target_label(call) == Some(label),
    ensures
        ({
            let d = animate(c, call);
            &&& slide_added(c, d, entry_start(c, call), duration_arg(call, 500) as int)
            &&& only_time(c, d)
            &&& d.slides.last().actions == asked(call, label)
            &&& d.slides.last().loc == c.current_directive_loc
        }),
{
    let (c1, easing) = easing_step(c, call, label, Easing::Smooth);
    let (c2, scale) = ratio_step(c1, call, "scale"@);
    let (c3, scale_by) = ratio_step(c2, call, "scale-by"@);
    let (c4, rotate) = angle_step(c3, call, "rotate"@);
    let (c5, rotate_by) = angle_step(c4, call, "rotate-by"@);
    let (c6, opacity) = ratio_step(c5, call, "opacity"@);
    lemma_told(c, call, "scale"@, label, Easing::Smooth);
    lemma_told(c1, call, "scale"@, label, Easing::Smooth);
    lemma_told(c2, call, "scale-by"@, label, Easing::Smooth);
    lemma_told(c3, call, "rotate"@, label, Easing::Smooth);
    lemma_told(c4, call, "rotate-by"@, label, Easing::Smooth);
    lemma_told(c5, call, "opacity"@, label, Easing::Smooth);
    lemma_emitted(c, c6, call, duration_arg(call, 500), asked(call, label));
}

proof fn lemma_moves(call: NodeView, label: Seq<char>, easing: Easing, a: ActionView)
    ensures
        crate::directives::moves(call, label, easing).contains(a) <==> (match a {
            ActionView::MoveTo { target, to, easing: e } => target == label && e == easing
                && pair_value(named_value(call, "to"@)) == Some(to),
            ActionView::MoveBy { target, delta, easing: e } => {
                let dx = number_value(named_value(call, "dx"@));
                let dy = number_value(named_value(call, "dy"@));
                &&& target == label && e == easing
                &&& dx is Some || dy is Some
                &&& if dx is Some { delta.0 == dx->0 } else { delta.0 == Number::Int(0) }
                &&& if dy is Some { delta.1 == dy->0 } else { delta.1 == Number::Int(0) }
            },
            _ => false,
        }),
{
    let none = Seq::<ActionView>::empty();
    let to = match pair_value(named_value(call, "to"@)) {
        Some(p) => Some(ActionView::MoveTo { target: label, to: p, easing }),
        None => None,
    };
    let by = if number_value(named_value(call, "dx"@)) is Some || number_value(
        named_value(call, "dy"@),
    ) is Some {
        Some(
            ActionView::MoveBy {
                target: label,
                delta: (number_or(call, "dx"@, 0), number_or(call, "dy"@, 0)),
                easing,
            },
        )
    } else {
        None
    };
    lemma_with_some(none, to);
    lemma_with_some(with_some(none, to), by);
    assert(!none.contains(a));
    assert(crate::directives::moves(call, label, easing) == with_some(with_some(none, to), by));
}

proof fn lemma_asked(call: NodeView, label: Seq<char>, a: ActionView)
    ensures
        asked(call, label).contains(a) <==> asks_for(call, label, a),
{
    let easing = eased(call, Easing::Smooth);
    let scale = match ratio_value(named_value(call, "scale"@)) {
        Some(to) => Some(ActionView::Scale { target: label, to, easing }),
        None => None,
    };
    let scale_by = match ratio_value(named_value(call, "scale-by"@)) {
        Some(factor) => Some(ActionView::ScaleBy { target: label, factor, easing }),
        None => None,
    };
    let rotate = match angle_value(named_value(call, "rotate"@)) {
        Some(degrees) => Some(ActionView::Rotate { target: label, degrees, easing }),
        None => None,
    };
    let rotate_by = match angle_value(named_value(call, "rotate-by"@)) {
        Some(d) => Some(ActionView::RotateBy { target: label, delta_degrees: d, easing }),
        None => None,
    };
    let fade = match ratio_value(named_value(call, "opacity"@)) {
        Some(o) => Some(ActionView::FadeTo { target: label, opacity: unit_ratio(o), easing }),
        None => None,
    };
    let s1 = crate::directives::moves(call, label, easing);
    let s2 = with_some(s1, scale);
    let s3 = with_some(s2, scale_by);
    let s4 = with_some(s3, rotate);
    let s5 = with_some(s4, rotate_by);
    let s6 = with_some(s5, fade);
    lemma_moves(call, label, easing, a);
    lemma_with_some(s1, scale);
    lemma_with_some(s2, scale_by);
    lemma_with_some(s3, rotate);
    lemma_with_some(s4, rotate_by);
    lemma_with_some(s5, fade);
    assert(asked(call, label) == s6);
    assert(s6.contains(a) <==> s5.contains(a) || fade == Some(a));
    assert(s5.contains(a) <==> s4.contains(a) || rotate_by == Some(a));
    assert(s4.contains(a) <==> s3.contains(a) || rotate == Some(a));
    assert(s3.contains(a) <==> s2.contains(a) || scale_by == Some(a));
    assert(s2.contains(a) <==> s1.contains(a) || scale == Some(a));
}

/// `animate` adds one slide for its target, whose actions are exactly those that the call asks
/// for: a move to or by what it says, a scale, a rotation, an opacity.
#[verifier::rlimit(30)]
pub proof fn law_animate(c: CtxView, call: NodeView, label: Seq<char>)
    requires
        target_label(call) == Some(label),
    ensures
        ({
            let d = directive(c, call, "animate"@);
            &&& slide_added(c, d, entry_start(c, call), duration_arg(call, 500) as int)
            &&& only_time(c, d)
            &&& d.slides.last().loc == c.current_directive_loc
            &&& forall|a: ActionView| #[trigger]
                d.slides.last().actions.contains(a) <==> asks_for(call, label, a)
        }),
{
    is_animate(c, call);
    lemma_animate(c, call, label);
    let s = directive(c, call, "animate"@).slides.last().actions;
    assert forall|a: ActionView| #[trigger] s.contains(a) <==> asks_for(call, label, a) by {
        lemma_asked(call, label, a);
    }
}

/// `animate` with `to: (x, y)` moves its target to x across and y down.
pub proof fn law_animate_moves_to(
    c: CtxView,
    call: NodeView,
    label: Seq<char>,
    e: NodeView,
    x: NodeView,
    y: NodeView,
    lx: Length,
    ly: Length,
)
    requires
        target_label(call) == Some(label),
        given(call, "to"@, e),
        array_of(e, seq![x, y]),
        length_value(x) == Some(lx),
        length_value(y) == Some(ly),
    ensures
        ({
            let s = directive(c, call, "animate"@).slides.last().actions;
            &&& exists|i: int|
                0 <= i < s.len() && (#[trigger] s[i] matches ActionView::MoveTo { target, to, .. }
                    && target == label && to.0 == lx && to.1 == ly)
            &&& forall|i: int|
                0 <= i < s.len() ==> (#[trigger] s[i] matches ActionView::MoveTo { target, to, .. }
                    ==> target == label && to.0 == lx && to.1 == ly)
        }),
{
    law_animate(c, call, label);
    reveal_strlit("to");
    law_named_argument(call, "to"@, e);
    law_pair(e, x, y, lx, ly);
    let s = directive(c, call, "animate"@).slides.last().actions;
    let a = ActionView::MoveTo { target: label, to: (lx, ly), easing: eased(call, Easing::Smooth) };
    assert(asks_for(call, label, a));
    assert(s.contains(a));
    let i = choose|i: int| 0 <= i < s.len() && s[i] == a;
    assert(s[i] matches ActionView::MoveTo { target, to, .. } && target == label && to.0 == lx
        && to.1 == ly);
    assert forall|i: int| 0 <= i < s.len() implies (#[trigger] s[i] matches ActionView::MoveTo {
        target,
        to,
        ..
    } ==> target == label && to.0 == lx && to.1 == ly) by {
        assert(s.contains(s[i]));
        assert(asks_for(call, label, s[i]));
    }
}

/// `animate` moves nothing to a place that it is not given, and by nothing without `dx` and `dy`.
pub proof fn law_animate_does_no_more(c: CtxView, call: NodeView, label: Seq<char>, i: int)
    requires
        target_label(call) == Some(label),
        0 <= i < directive(c, call, "animate"@).slides.last().actions.len(),
    ensures
        ({
            let a = directive(c, call, "animate"@).slides.last().actions[i];
            &&& withheld(call, "to"@) ==> !(a is MoveTo)
            &&& withheld(call, "dx"@) && withheld(call, "dy"@) ==> !(a is MoveBy)
            &&& withheld(call, "scale"@) ==> !(a is Scale)
            &&& withheld(call, "scale-by"@) ==> !(a is ScaleBy)
            &&& withheld(call, "rotate"@) ==> !(a is Rotate)
            &&& withheld(call, "rotate-by"@) ==> !(a is RotateBy)
            &&& withheld(call, "opacity"@) ==> !(a is FadeTo)
        }),
{
    law_animate(c, call, label);
    let s = directive(c, call, "animate"@).slides.last().actions;
    assert(s.contains(s[i]));
    assert(asks_for(call, label, s[i]));
    lemma_withheld(call, "to"@);
    lemma_withheld(call, "dx"@);
    lemma_withheld(call, "dy"@);
    lemma_withheld(call, "scale"@);
    lemma_withheld(call, "scale-by"@);
    lemma_withheld(call, "rotate"@);
    lemma_withheld(call, "rotate-by"@);
    lemma_withheld(call, "opacity"@);
    reveal_strlit("to");
    reveal_strlit("dx");
    reveal_strlit("dy");
    reveal_strlit("scale");
    reveal_strlit("scale-by");
    reveal_strlit("rotate");
    reveal_strlit("rotate-by");
    reveal_strlit("opacity");
}

proof fn lemma_withheld(call: NodeView, name: Seq<char>)
    ensures
        name.len() > 0 && withheld(call, name) ==> named_value(call, name) is None,
{
    if name.len() > 0 && withheld(call, name) {
        law_missing_argument(call, name);
    }
}

/// A directive that needs a target does nothing without one.
pub proof fn law_no_target(c: CtxView, call: NodeView)
    requires
        target_label(call) is None,
    ensures
        directive(c, call, "animate"@) == c,
        directive(c, call, "save-state"@) == c,
        directive(c, call, "restore"@) == c,
        directive(c, call, "indicate"@) == c,
        directive(c, call, "flash"@) == c,
        directive(c, call, "wiggle"@) == c,
        directive(c, call, "set-color"@) == c,
        directive(c, call, "focus-on"@) == c,
        directive(c, call, "move-along-path"@) == c,
        directive(c, call, "track"@) == c,
        directive(c, call, "blink"@) == c,
        directive(c, call, "spiral-in"@) == c,
        directive(c, call, "transform"@) == c,
        directive(c, call, "reveal"@) == c,
        directive(c, call, "typewriter"@) == c,
{
    is_animate(c, call);
    is_save_state(c, call);
    is_restore(c, call);
    is_indicate(c, call);
    is_flash(c, call);
    is_wiggle(c, call);
    is_set_color(c, call);
    is_focus_on(c, call);
    is_move_along_path(c, call);
    is_track(c, call);
    is_blink(c, call);
    is_spiral_in(c, call);
    is_transform(c, call);
    is_reveal(c, call);
    is_typewriter(c, call);
}

// ---------------------------------------------------------------- one action

/// A pause takes its time, after everything, and does nothing.
pub proof fn law_pause(c: CtxView, call: NodeView)
    ensures
        ({
            let d = directive(c, call, "pause"@);
            &&& slide_added(c, d, c.cursor as int, duration_arg(call, 500) as int)
            &&& d.slides.last().actions.len() == 0
            &&& only_time(c, d)
        }),
{
    is_pause(c, call);
    assert(pause(c, call).slides.drop_last() =~= c.slides);
}

/// `save-state` remembers the target under a name, and `restore` with the same name goes back to
/// it: both name the slot that is given, or the same one where none is.
pub proof fn law_save_and_restore(c: CtxView, d: CtxView, call: NodeView, label: Seq<char>)
    requires
        target_label(call) == Some(label),
    ensures
        ({
            let slot = match string_value(named_value(call, "slot"@)) {
                Some(s) => s,
                None => "default"@,
            };
            &&& does(
                c,
                directive(c, call, "save-state"@),
                entry_start(c, call),
                1,
                ActionView::SaveState { target: label, slot },
            )
            &&& does(
                d,
                directive(d, call, "restore"@),
                entry_start(d, call),
                duration_arg(call, 500) as int,
                ActionView::Restore { target: label, slot, easing: eased(call, Easing::Smooth) },
            )
        }),
{
    is_save_state(c, call);
    is_restore(d, call);
    assert(save_state(c, call).slides.drop_last() =~= c.slides);
    assert(restore(d, call).slides.drop_last() =~= d.slides);
}

/// `indicate` draws attention to its target: by 110 percent of its size and no move, unless the
/// call says otherwise.
pub proof fn law_indicate(c: CtxView, call: NodeView, label: Seq<char>)
    requires
        target_label(call) == Some(label),
    ensures
        does(
            c,
            directive(c, call, "indicate"@),
            entry_start(c, call),
            duration_arg(call, 300) as int,
            ActionView::Indicate {
                target: label,
                factor: ratio_given(call, "factor"@, whole_percent(110)),
                dx: number_or(call, "dx"@, 0),
                dy: number_or(call, "dy"@, 0),
                easing: eased(call, Easing::Smooth),
            },
        ),
{
    is_indicate(c, call);
    assert(indicate(c, call).slides.drop_last() =~= c.slides);
}

/// `flash` draws attention to its target: by twice its size, unless the call says otherwise.
pub proof fn law_flash(c: CtxView, call: NodeView, label: Seq<char>)
    requires
        target_label(call) == Some(label),
    ensures
        does(
            c,
            directive(c, call, "flash"@),
            entry_start(c, call),
            duration_arg(call, 200) as int,
            ActionView::Flash {
                target: label,
                factor: ratio_given(call, "factor"@, whole_percent(200)),
                easing: eased(call, Easing::Smooth),
            },
        ),
{
    is_flash(c, call);
    assert(flash(c, call).slides.drop_last() =~= c.slides);
}

/// `focus-on` makes its target larger: by a quarter, unless the call says otherwise.
pub proof fn law_focus_on(c: CtxView, call: NodeView, label: Seq<char>)
    requires
        target_label(call) == Some(label),
    ensures
        does(
            c,
            directive(c, call, "focus-on"@),
            entry_start(c, call),
            duration_arg(call, 300) as int,
            ActionView::ScaleBy {
                target: label,
                factor: ratio_given(call, "factor"@, whole_percent(125)),
                easing: eased(call, Easing::Smooth),
            },
        ),
{
    is_focus_on(c, call);
    assert(focus_on(c, call).slides.drop_last() =~= c.slides);
}

/// `wiggle` turns its target to and fro: by 15 degrees, unless the call says otherwise.
pub proof fn law_wiggle(c: CtxView, call: NodeView, label: Seq<char>)
    requires
        target_label(call) == Some(label),
    ensures
        does(
            c,
            directive(c, call, "wiggle"@),
            entry_start(c, call),
            duration_arg(call, 500) as int,
            ActionView::Wiggle {
                target: label,
                degrees: angle_given(call, "degrees"@, whole_degrees(15)),
                easing: eased(call, Easing::Wiggle),
            },
        ),
{
    is_wiggle(c, call);
    assert(wiggle(c, call).slides.drop_last() =~= c.slides);
}

/// `appear` shows its target and `disappear` hides it, in a moment.
pub proof fn law_appear_and_disappear(c: CtxView, call: NodeView, label: Seq<char>)
    requires
        string_value(pos_arg(call, 0)) == Some(label),
    ensures
        does(
            c,
            directive(c, call, "appear"@),
            entry_start(c, call),
            1,
            ActionView::Show { target: label },
        ),
        does(
            c,
            directive(c, call, "disappear"@),
            entry_start(c, call),
            1,
            ActionView::Hide { target: label },
        ),
{
    is_appear(c, call);
    is_disappear(c, call);
    assert(appear_disappear(c, call, true).slides.drop_last() =~= c.slides);
    assert(appear_disappear(c, call, false).slides.drop_last() =~= c.slides);
}

/// `set-color` gives its target the colour that is named, or written out, and black where there is
/// none.
pub proof fn law_set_color(c: CtxView, call: NodeView, label: Seq<char>)
    requires
        target_label(call) == Some(label),
    ensures
        ({
            let d = directive(c, call, "set-color"@);
            &&& slide_added(c, d, entry_start(c, call), duration_arg(call, 1) as int)
            &&& only_time(c, d)
            &&& d.slides.last().actions.len() == 1
            &&& d.slides.last().actions[0] matches ActionView::SetColor { target, color, easing } && {
                &&& target == label
                &&& easing == eased(call, Easing::Linear)
                &&& named_value(call, "color"@) is None ==> color == "black"@
                &&& named_value(call, "color"@) matches Some(e) ==> {
                    &&& e.value matches Some(s) ==> (s.len() > 0 ==> color == s)
                    &&& e.value is None && arg_text(e).len() > 0 ==> color == arg_text(e)
                }
            }
        }),
{
    is_set_color(c, call);
    assert(set_color(c, call).slides.drop_last() =~= c.slides);
}

proof fn lemma_points(s: Seq<NodeView>, ps: Seq<(Length, Length)>)
    requires
        s.len() == ps.len(),
        forall|i: int| 0 <= i < s.len() ==> pair_value(Some(#[trigger] s[i])) == Some(ps[i]),
    ensures
        crate::directives::points(s) == ps,
    decreases s.len(),
{
    if s.len() > 0 {
        assert(pair_value(Some(s[s.len() - 1])) == Some(ps[ps.len() - 1]));
        lemma_points(s.drop_last(), ps.drop_last());
        assert(ps.drop_last().push(ps.last()) =~= ps);
    } else {
        assert(ps =~= Seq::empty());
    }
}

proof fn lemma_keys(s: Seq<NodeView>)
    requires
        forall|i: int| 0 <= i < s.len() ==> track_key(#[trigger] s[i]) is Some,
    ensures
        crate::directives::track_keys(s).len() == s.len(),
        forall|i: int|
            0 <= i < s.len() ==> Some(#[trigger] crate::directives::track_keys(s)[i]) == track_key(
                s[i],
            ),
    decreases s.len(),
{
    if s.len() > 0 {
        assert(track_key(s[s.len() - 1]) is Some);
        lemma_keys(s.drop_last());
    }
}

/// `move-along-path` takes its target through all points of its path, in their order, by straight
/// lines or by curves.
#[verifier::rlimit(30)]
pub proof fn law_path_points(
    c: CtxView,
    call: NodeView,
    label: Seq<char>,
    e: NodeView,
    s: Seq<NodeView>,
    ps: Seq<(Length, Length)>,
)
    requires
        target_label(call) == Some(label),
        named_or_pos(call, "path"@, 1) == Some(e),
        array_of(e, s),
        s.len() == ps.len() > 0,
        forall|i: int| 0 <= i < s.len() ==> pair_value(Some(#[trigger] s[i])) == Some(ps[i]),
    ensures
        ({
            let d = directive(c, call, "move-along-path"@);
            &&& slide_added(c, d, entry_start(c, call), duration_arg(call, 500) as int)
            &&& only_time(c, d)
            &&& d.slides.last().actions.len() == 1
            &&& d.slides.last().actions[0] matches ActionView::MoveAlongPath {
                target,
                points,
                mode,
                orient,
                easing,
            } && {
                &&& target == label
                &&& points == ps
                &&& (mode == PathMode::Bezier) == (string_value(named_value(call, "mode"@)) == Some(
                    "bezier"@,
                ))
                &&& orient == flag(call, "orient"@)
                &&& easing == eased(call, Easing::Linear)
            }
        }),
{
    is_move_along_path(c, call);
    crate::arguments::lemma_items_filter(e.children);
    lemma_points(s, ps);
    assert(move_along_path(c, call).slides.drop_last() =~= c.slides);
}

/// `track` takes its target through all keyframes that it is given, in their order.
#[verifier::rlimit(30)]
pub proof fn law_track_keys(
    c: CtxView,
    call: NodeView,
    label: Seq<char>,
    e: NodeView,
    s: Seq<NodeView>,
)
    requires
        target_label(call) == Some(label),
        named_or_pos(call, "keys"@, 1) == Some(e),
        array_of(e, s),
        s.len() > 0,
        forall|i: int| 0 <= i < s.len() ==> track_key(#[trigger] s[i]) is Some,
    ensures
        ({
            let d = directive(c, call, "track"@);
            &&& slide_added(c, d, entry_start(c, call), duration_arg(call, 1000) as int)
            &&& only_time(c, d)
            &&& d.slides.last().actions.len() == 1
            &&& d.slides.last().actions[0] matches ActionView::Track { target, keyframes, easing } && {
                &&& target == label
                &&& keyframes.len() == s.len()
                &&& forall|i: int|
                    0 <= i < s.len() ==> Some(#[trigger] keyframes[i]) == track_key(s[i])
                &&& easing == eased(call, Easing::Smooth)
            }
        }),
{
    is_track(c, call);
    crate::arguments::lemma_items_filter(e.children);
    lemma_keys(s);
    assert(track(c, call).slides.drop_last() =~= c.slides);
}

/// `camera` pans by x and y, zooms and turns the whole picture, after everything: it acts on a
/// mobject of its own that shows nothing.
#[verifier::rlimit(30)]
pub proof fn law_camera(c: CtxView, call: NodeView)
    ensures
        ({
            let d = directive(c, call, "camera"@);
            &&& slide_added(c, d, c.cursor as int, duration_arg(call, 1000) as int)
            &&& d.slides.last().actions.len() == 1
            &&& d.slides.last().actions[0] matches ActionView::Camera {
                target,
                x,
                y,
                zoom,
                rotate,
                easing,
            } && {
                &&& target == "__camera__"@
                &&& x == number_or(call, "x"@, 0)
                &&& y == number_or(call, "y"@, 0)
                &&& zoom == crate::number::zoom_ratio(
                    ratio_given(call, "zoom"@, whole_percent(100)),
                )
                &&& rotate == angle_given(call, "rotate"@, whole_degrees(0))
                &&& easing == eased(call, Easing::Smooth)
                &&& d.items.contains_key(target)
                &&& c.items.contains_key(target) ==> d.items == c.items
                &&& !c.items.contains_key(target) ==> d.items[target] == "none"@
                    && d.label_scene.contains_key(target) && d.label_scene[target]
                    == c.current_scene
            }
        }),
{
    is_camera(c, call);
    assert(camera(c, call).slides.drop_last() =~= c.slides);
}

/// `scene-switch` goes to the scene that it names, and keeps the place of that name for a message.
pub proof fn law_scene_switch(c: CtxView, call: NodeView, e: NodeView, name: Seq<char>)
    requires
        given(call, "target"@, e) || (withheld(call, "target"@) && given(call, "name"@, e)),
        e.value == Some(name),
    ensures
        ({
            let d = directive(c, call, "scene-switch"@);
            &&& d.slides.len() == c.slides.len() + 1
            &&& d.slides.drop_last() == c.slides
            &&& d.slides.last().start_ms == c.cursor
            &&& d.slides.last().actions.len() == 1
            &&& d.slides.last().actions[0] matches ActionView::SceneSwitch {
                target,
                duration_ms,
                easing,
            } && target == name && easing == eased(call, Easing::Smooth) && (duration_ms >= 1
                ==> d.slides.last().duration_ms == duration_ms) && (duration_ms == 0
                ==> d.slides.last().duration_ms == 1) && (number_or(call, "duration"@, 0)
                matches Number::Int(n) ==> (0 <= n <= u32::MAX ==> duration_ms == n))
            &&& d.scene_switch_locs.contains_key(name)
        }),
{
    is_scene_switch(c, call);
    reveal_strlit("target");
    reveal_strlit("name");
    if given(call, "target"@, e) {
        law_named_argument(call, "target"@, e);
    } else {
        law_missing_argument(call, "target"@);
        law_named_argument(call, "name"@, e);
    }
    assert(scene_switch(c, call).slides.drop_last() =~= c.slides);
}

/// Every action is about its target; a switch is about a scene, and so about no mobject.
pub proof fn law_subject(a: ActionView)
    ensures
        a matches ActionView::MoveTo { target, .. } ==> a.subject() == Some(target),
        a matches ActionView::MoveBy { target, .. } ==> a.subject() == Some(target),
        a matches ActionView::Scale { target, .. } ==> a.subject() == Some(target),
        a matches ActionView::ScaleBy { target, .. } ==> a.subject() == Some(target),
        a matches ActionView::Rotate { target, .. } ==> a.subject() == Some(target),
        a matches ActionView::RotateBy { target, .. } ==> a.subject() == Some(target),
        a matches ActionView::FadeTo { target, .. } ==> a.subject() == Some(target),
        a matches ActionView::FadeIn { target, .. } ==> a.subject() == Some(target),
        a matches ActionView::FadeOut { target, .. } ==> a.subject() == Some(target),
        a matches ActionView::Hide { target } ==> a.subject() == Some(target),
        a matches ActionView::Show { target } ==> a.subject() == Some(target),
        a matches ActionView::Transform { target, .. } ==> a.subject() == Some(target),
        a is SceneSwitch <==> a.subject() is None,
{
}

} // verus!
