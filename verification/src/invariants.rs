//! What the walk over a document keeps.

use vstd::prelude::*;
use crate::args::{
    angle_step, at_least_one, delay_arg, duration_arg, easing_step, key_step, number_or,
    ratio_step, span, target_label, timing_arg,
};
use crate::composite::{
    blink, blinks, fade_transform, fresh, half_blink, morph, parked, replaced, reveal_text,
    shown_body, spiral_in, subtitle, transform,
};
use crate::context::{later, CtxView};
use crate::counters::{
    active_kc, ascending, counter_event, easing_before, ecnew, fitted, kc_easing_step, kcnew,
    kcpush, law_keyframes_ascend, pushed, shifted, whole_or,
};
use crate::directives::{
    animate, appear_disappear, audio, camera, flash, focus_on, group, indicate, mobject,
    move_along_path, pause, play, restore, save_state, scene_switch, set_color, track, wiggle,
};
use crate::easing::Easing;
use crate::expr::{arg_text, named_or_pos, number_value, pos_or_named};
use crate::number::rounded;
use crate::scene::{
    lasting, ActionView, CounterEventKind, GlobalConfig, Keyframe, KeyframeCounterView, SlideView,
    Timing,
};
use crate::symbols::symbol_of;
use crate::syntax::{document, Kind, NodeView};
use crate::walk::{
    called, content_directive, counter_directive, directive, emphasis_directive, import_walked,
    look_directive, text_directive, let_bound, nested_fault, page_sized,
    refs_recorded,
    scene_closed, scene_opened, scope_closed, scope_opened, show_ruled, visited, walked,
    walked_all,
};

verus! {

/// Whether one list starts with the other.
pub open spec fn begins<T>(a: Seq<T>, b: Seq<T>) -> bool {
    a.len() <= b.len() && forall|i: int| 0 <= i < a.len() ==> #[trigger] b[i] == a[i]
}

/// Whether the timeline reaches to the end of every slide, or to the last millisecond before it:
/// the slide of a transform starts one millisecond into its entry.
pub open spec fn covered(slides: Seq<SlideView>, cursor: u32) -> bool {
    forall|i: int|
        0 <= i < slides.len() ==> later(
            (#[trigger] slides[i]).start_ms,
            slides[i].duration_ms,
        ) <= later(cursor, 1)
}

/// Whether the order of the labels holds each label that has a scene, once.
pub open spec fn orderly(c: CtxView) -> bool {
    c.label_order.no_duplicates() && forall|l: Seq<char>|
        c.label_order.contains(l) == #[trigger] c.label_scene.contains_key(l)
}

/// Whether the keyframes of every counter ascend.
pub open spec fn keyframes_ascend(c: CtxView) -> bool {
    forall|i: int| 0 <= i < c.kcdefs.len() ==> ascending((#[trigger] c.kcdefs[i]).keyframes)
}

/// What holds at all times of a walk: the timeline reaches over every slide, every slide lasts, the
/// labels are in order, keyframes ascend, and outside of scenes everything belongs to the document.
pub open spec fn sound(c: CtxView) -> bool {
    &&& covered(c.slides, c.cursor)
    &&& lasting(c.slides)
    &&& orderly(c)
    &&& keyframes_ascend(c)
    &&& c.scene_stack.len() == 0 ==> c.current_scene == 0
}

/// How a walk goes on: time never runs back, what was recorded stays as it was, scopes and scenes
/// that were opened are closed again. The first fault, the first page size and the first show rule
/// are the ones that count.
pub open spec fn goes_on(a: CtxView, b: CtxView) -> bool {
    &&& a.pending_error is Some ==> b.pending_error == a.pending_error
    &&& a.page_size is Some ==> b.page_size == a.page_size
    &&& a.candy_show_rule_seen ==> b.candy_show_rule_seen && b.config == a.config
    &&& begins(a.warnings, b.warnings)
    &&& a.cursor <= b.cursor
    &&& begins(a.slides, b.slides)
    &&& begins(a.audio, b.audio)
    &&& begins(a.label_order, b.label_order)
    &&& begins(a.scopes, b.scopes)
    &&& a.scope_stack == b.scope_stack
    &&& a.scene_stack == b.scene_stack
    &&& a.current_scene == b.current_scene
}

/// What every step of a walk keeps. Scopes and scenes are closed again in any case.
pub open spec fn keeps(a: CtxView, b: CtxView) -> bool {
    &&& a.scope_stack == b.scope_stack
    &&& a.scene_stack == b.scene_stack
    &&& sound(a) ==> sound(b) && goes_on(a, b)
}

proof fn lemma_keeps_trans(a: CtxView, b: CtxView, c: CtxView)
    requires
        keeps(a, b),
        keeps(b, c),
    ensures
        keeps(a, c),
{
}

broadcast proof fn lemma_registered(c: CtxView, label: Seq<char>, scene: usize)
    ensures
        keeps(c, #[trigger] c.registered(label, scene)),
{
    if sound(c) {
        let d = c.registered(label, scene);
        if !c.label_scene.contains_key(label) {
            assert(!c.label_order.contains(label));
            assert(d.label_order[c.label_order.len() as int] == label);
        }
        assert forall|l: Seq<char>|
            d.label_order.contains(l) == #[trigger] d.label_scene.contains_key(l) by {
            assert(c.label_order.contains(l) == c.label_scene.contains_key(l));
            if c.label_order.contains(l) {
                let i = choose|i: int| 0 <= i < c.label_order.len() && c.label_order[i] == l;
                assert(d.label_order[i] == l);
            }
        }
    }
}

broadcast proof fn lemma_emitted(
    c: CtxView,
    timing: Option<Timing>,
    delay: u32,
    duration: u32,
    actions: Seq<ActionView>,
)
    requires
        duration >= 1,
    ensures
        keeps(c, #[trigger] c.emitted(timing, delay, duration, actions)),
{
}

/// The state in which `animate` adds its slide: its arguments are checked.
spec fn animate_checked(c: CtxView, call: NodeView, label: Seq<char>) -> CtxView {
    let c1 = easing_step(c, call, label, Easing::Smooth).0;
    let c2 = ratio_step(c1, call, "scale"@).0;
    let c3 = ratio_step(c2, call, "scale-by"@).0;
    let c4 = angle_step(c3, call, "rotate"@).0;
    let c5 = angle_step(c4, call, "rotate-by"@).0;
    ratio_step(c5, call, "opacity"@).0
}

/// How an entry grows: slides are added up to its end, and nothing else that matters here.
spec fn grows(a: CtxView, b: CtxView) -> bool {
    &&& a.entry_end <= b.entry_end
    &&& begins(a.slides, b.slides)
    &&& forall|i: int|
        a.slides.len() <= i < b.slides.len() ==> later(
            (#[trigger] b.slides[i]).start_ms,
            b.slides[i].duration_ms,
        ) <= b.entry_end && b.slides[i].duration_ms >= 1
    &&& a.pending_error == b.pending_error
    &&& a.page_size == b.page_size
    &&& a.candy_show_rule_seen == b.candy_show_rule_seen
    &&& a.config == b.config
    &&& a.warnings == b.warnings
    &&& a.cursor == b.cursor
    &&& a.audio == b.audio
    &&& a.label_order == b.label_order
    &&& a.label_scene == b.label_scene
    &&& a.kcdefs == b.kcdefs
    &&& a.scopes == b.scopes
    &&& a.scope_stack == b.scope_stack
    &&& a.scene_stack == b.scene_stack
    &&& a.current_scene == b.current_scene
}

proof fn lemma_closed(a: CtxView, b: CtxView)
    requires
        grows(a, b),
    ensures
        keeps(a, b.closed()),
{
}

proof fn lemma_blinks(c: CtxView, label: Seq<char>, easing: Easing, half: u32, n: nat)
    requires
        half >= 1,
    ensures
        grows(c, blinks(c, label, easing, half, n)),
    decreases n,
{
    if n > 0 {
        lemma_blinks(c, label, easing, half, (n - 1) as nat);
    }
}

proof fn lemma_track(c: CtxView, call: NodeView)
    ensures
        keeps(c, track(c, call)),
{
}

proof fn lemma_mobject(c: CtxView, call: NodeView)
    ensures
        keeps(c, mobject(c, call)),
{
    broadcast use lemma_registered;

}

proof fn lemma_easing_step(c: CtxView, call: NodeView, label: Seq<char>, default: Easing)
    ensures
        keeps(c, easing_step(c, call, label, default).0),
{
}

proof fn lemma_ratio_step(c: CtxView, call: NodeView, key: Seq<char>)
    ensures
        keeps(c, ratio_step(c, call, key).0),
{
}

proof fn lemma_angle_step(c: CtxView, call: NodeView, key: Seq<char>)
    ensures
        keeps(c, angle_step(c, call, key).0),
{
}

proof fn lemma_animate_end(c: CtxView, c6: CtxView, call: NodeView, label: Seq<char>)
    requires
        keeps(c, c6),
        target_label(call) == Some(label),
        c6 == animate_checked(c, call, label),
    ensures
        keeps(c, animate(c, call)),
{
    let actions = animate(c, call).slides.last().actions;
    let end = c6.emitted(timing_arg(call), delay_arg(call), duration_arg(call, 500), actions);
    lemma_emitted(c6, timing_arg(call), delay_arg(call), duration_arg(call, 500), actions);
    assert(animate(c, call) == end);
    lemma_keeps_trans(c, c6, end);
}

proof fn lemma_animate(c: CtxView, call: NodeView)
    ensures
        keeps(c, animate(c, call)),
{
    match target_label(call) {
        Some(label) => {
            let c1 = easing_step(c, call, label, Easing::Smooth).0;
            let c2 = ratio_step(c1, call, "scale"@).0;
            let c3 = ratio_step(c2, call, "scale-by"@).0;
            let c4 = angle_step(c3, call, "rotate"@).0;
            let c5 = angle_step(c4, call, "rotate-by"@).0;
            let c6 = ratio_step(c5, call, "opacity"@).0;
            lemma_easing_step(c, call, label, Easing::Smooth);
            lemma_ratio_step(c1, call, "scale"@);
            lemma_ratio_step(c2, call, "scale-by"@);
            lemma_angle_step(c3, call, "rotate"@);
            lemma_angle_step(c4, call, "rotate-by"@);
            lemma_ratio_step(c5, call, "opacity"@);
            lemma_keeps_trans(c, c1, c2);
            lemma_keeps_trans(c, c2, c3);
            lemma_keeps_trans(c, c3, c4);
            lemma_keeps_trans(c, c4, c5);
            lemma_keeps_trans(c, c5, c6);
            lemma_animate_end(c, c6, call, label);
        },
        None => {},
    }
}

proof fn lemma_pause(c: CtxView, call: NodeView)
    ensures
        keeps(c, pause(c, call)),
{
}

proof fn lemma_audio(c: CtxView, call: NodeView)
    ensures
        keeps(c, audio(c, call)),
{
}

proof fn lemma_play(c: CtxView, call: NodeView)
    ensures
        keeps(c, play(c, call)),
{
    broadcast use {lemma_registered, lemma_emitted};

}

proof fn lemma_save_state(c: CtxView, call: NodeView)
    ensures
        keeps(c, save_state(c, call)),
{
}

proof fn lemma_restore(c: CtxView, call: NodeView)
    ensures
        keeps(c, restore(c, call)),
{
}

proof fn lemma_indicate(c: CtxView, call: NodeView)
    ensures
        keeps(c, indicate(c, call)),
{
}

proof fn lemma_flash(c: CtxView, call: NodeView)
    ensures
        keeps(c, flash(c, call)),
{
}

proof fn lemma_wiggle(c: CtxView, call: NodeView)
    ensures
        keeps(c, wiggle(c, call)),
{
}

proof fn lemma_set_color(c: CtxView, call: NodeView)
    ensures
        keeps(c, set_color(c, call)),
{
}

proof fn lemma_focus_on(c: CtxView, call: NodeView)
    ensures
        keeps(c, focus_on(c, call)),
{
}

proof fn lemma_move_along_path(c: CtxView, call: NodeView)
    ensures
        keeps(c, move_along_path(c, call)),
{
}

proof fn lemma_camera(c: CtxView, call: NodeView)
    ensures
        keeps(c, camera(c, call)),
{
    broadcast use lemma_registered;

}

proof fn lemma_group(c: CtxView, call: NodeView)
    ensures
        keeps(c, group(c, call)),
{
    broadcast use lemma_registered;

}

proof fn lemma_scene_switch(c: CtxView, call: NodeView)
    ensures
        keeps(c, scene_switch(c, call)),
{
}

proof fn lemma_spiral_in(c: CtxView, call: NodeView)
    ensures
        keeps(c, spiral_in(c, call)),
{
}

proof fn lemma_fade_transform(c: CtxView, call: NodeView)
    ensures
        keeps(c, fade_transform(c, call)),
{
}

proof fn lemma_morph(c: CtxView, call: NodeView)
    ensures
        keeps(c, morph(c, call)),
{
}

proof fn lemma_replaced(
    c: CtxView,
    call: NodeView,
    label: Seq<char>,
    old_body: Seq<char>,
    new_body: Seq<char>,
    easing: Easing,
)
    ensures
        keeps(c, replaced(c, call, label, old_body, new_body, easing)),
{
    broadcast use lemma_registered;

    let c1 = parked(c, label, old_body);
    assert(keeps(c, c1));
    assert(keeps(c1, replaced(c, call, label, old_body, new_body, easing)));
    lemma_keeps_trans(c, c1, replaced(c, call, label, old_body, new_body, easing));
}

proof fn lemma_fresh(
    c: CtxView,
    call: NodeView,
    label: Seq<char>,
    body: Seq<char>,
    easing: Easing,
)
    ensures
        keeps(c, fresh(c, call, label, body, easing)),
{
}

proof fn lemma_transform(c: CtxView, call: NodeView)
    ensures
        keeps(c, transform(c, call)),
{
    match (target_label(call), pos_or_named(call, 1, "to"@)) {
        (Some(label), Some(to)) => {
            let new_body = arg_text(to);
            let (c1, easing) = easing_step(c, call, label, Easing::Smooth);
            lemma_easing_step(c, call, label, Easing::Smooth);
            let old_body = shown_body(c1, label);
            lemma_fresh(c1, call, label, new_body, easing);
            lemma_replaced(c1, call, label, old_body, new_body, easing);
            lemma_keeps_trans(c, c1, fresh(c1, call, label, new_body, easing));
            lemma_keeps_trans(c, c1, replaced(c1, call, label, old_body, new_body, easing));
        },
        _ => {},
    }
}

proof fn lemma_subtitle(c: CtxView, call: NodeView)
    ensures
        keeps(c, subtitle(c, call)),
{
}

proof fn lemma_ecnew(c: CtxView, call: NodeView)
    ensures
        keeps(c, ecnew(c, call)),
{
}

proof fn lemma_kcnew(c: CtxView, call: NodeView)
    ensures
        keeps(c, kcnew(c, call)),
{
}

proof fn lemma_blink(c: CtxView, call: NodeView)
    ensures
        keeps(c, blink(c, call)),
{
    match target_label(call) {
        Some(label) => {
            let n = at_least_one(number_or(call, "blinks"@, 3));
            let half = half_blink(duration_arg(call, 500), n);
            let (c1, easing) = easing_step(c, call, label, Easing::Linear);
            let c2 = c1.opened(timing_arg(call), delay_arg(call));
            lemma_blinks(c2, label, easing, half, n as nat);
            lemma_closed(c2, blinks(c2, label, easing, half, n as nat));
        },
        None => {},
    }
}

proof fn lemma_appear_disappear(c: CtxView, call: NodeView, appear: bool)
    ensures
        keeps(c, appear_disappear(c, call, appear)),
{
}

proof fn lemma_reveal_text(c: CtxView, call: NodeView, typewriter: bool)
    ensures
        keeps(c, reveal_text(c, call, typewriter)),
{
}

proof fn lemma_counter_event(c: CtxView, call: NodeView, kind: CounterEventKind, kc: bool)
    ensures
        keeps(c, counter_event(c, call, kind, kc)),
{
}

proof fn lemma_active_kc(s: Seq<KeyframeCounterView>, stack: Seq<usize>, name: Seq<char>)
    ensures
        active_kc(s, stack, name) matches Some(i) ==> 0 <= i < s.len(),
    decreases stack.len(),
{
    if stack.len() > 0 {
        lemma_active_kc(s, stack.drop_last(), name);
    }
}

proof fn lemma_pushed(
    c: CtxView,
    call: NodeView,
    name: Seq<char>,
    i: int,
    at: u32,
    value: i64,
)
    requires
        0 <= i < c.kcdefs.len(),
    ensures
        keeps(c, pushed(c, call, name, i, at, value)),
{
    let def = c.kcdefs[i];
    let (c1, easing) = kc_easing_step(c, call, easing_before(def.keyframes, at, def.easing));
    let (place, moved) = fitted(def.keyframes, at);
    if sound(c) {
        law_keyframes_ascend(def.keyframes, Keyframe { at_ms: place, value, easing });
        let d = pushed(c, call, name, i, at, value);
        assert forall|j: int| 0 <= j < d.kcdefs.len() implies ascending(
            (#[trigger] d.kcdefs[j]).keyframes,
        ) by {
            if j != i {
                assert(d.kcdefs[j] == c.kcdefs[j]);
            }
        }
    }
}

proof fn lemma_kcpush(c: CtxView, call: NodeView)
    ensures
        keeps(c, kcpush(c, call)),
{
    let (c1, key) = key_step(
        c,
        call,
        pos_or_named(call, 0, "name"@),
        "keyframe-counter name"@,
        false,
    );
    assert(keeps(c, c1));
    match key {
        Some(name) => {
            lemma_active_kc(c1.kcdefs, c1.scope_stack, name);
            match (
                number_value(named_or_pos(call, "value"@, 1)),
                active_kc(c1.kcdefs, c1.scope_stack, name),
            ) {
                (Some(value), Some(i)) => {
                    let at = shifted(c1.cursor, whole_or(named_or_pos(call, "offset"@, 2), 0));
                    lemma_pushed(c1, call, name, i, at, rounded(value));
                },
                _ => {},
            }
        },
        None => {},
    }
}

proof fn lemma_counter_directive(c: CtxView, call: NodeView, sym: Seq<char>)
    ensures
        keeps(c, counter_directive(c, call, sym)),
{
    reveal(counter_directive);
    lemma_ecnew(c, call);
    lemma_kcnew(c, call);
    lemma_kcpush(c, call);
    lemma_counter_event(c, call, CounterEventKind::Pause, false);
    lemma_counter_event(c, call, CounterEventKind::Resume, false);
    lemma_counter_event(c, call, CounterEventKind::Destroy, false);
    lemma_counter_event(c, call, CounterEventKind::Pause, true);
    lemma_counter_event(c, call, CounterEventKind::Resume, true);
    lemma_counter_event(c, call, CounterEventKind::Destroy, true);
}

/// Every directive keeps what holds at all times of a walk, and goes on from where it starts.
pub proof fn law_directive_keeps(c: CtxView, call: NodeView, sym: Seq<char>)
    ensures
        keeps(c, directive(c, call, sym)),
{
    reveal(directive);
    reveal(emphasis_directive);
    reveal(look_directive);
    reveal(content_directive);
    reveal(text_directive);
    lemma_track(c, call);
    lemma_mobject(c, call);
    lemma_animate(c, call);
    lemma_pause(c, call);
    lemma_audio(c, call);
    lemma_play(c, call);
    lemma_save_state(c, call);
    lemma_restore(c, call);
    lemma_indicate(c, call);
    lemma_flash(c, call);
    lemma_wiggle(c, call);
    lemma_set_color(c, call);
    lemma_blink(c, call);
    lemma_spiral_in(c, call);
    lemma_focus_on(c, call);
    lemma_fade_transform(c, call);
    lemma_move_along_path(c, call);
    lemma_morph(c, call);
    lemma_transform(c, call);
    lemma_camera(c, call);
    lemma_group(c, call);
    lemma_subtitle(c, call);
    lemma_scene_switch(c, call);
    lemma_appear_disappear(c, call, true);
    lemma_appear_disappear(c, call, false);
    lemma_reveal_text(c, call, false);
    lemma_reveal_text(c, call, true);
    lemma_counter_directive(c, call, sym);
}

proof fn lemma_called(c: CtxView, call: NodeView)
    ensures
        keeps(c, called(c, call)),
{
    reveal(called);
    match symbol_of(c, call) {
        Some(sym) => {
            let c1 = CtxView { current_directive_loc: Some(span(call)), ..c };
            let c2 = refs_recorded(c1, call, sym);
            assert(keeps(c, c2));
            law_directive_keeps(c2, call, sym);
            lemma_keeps_trans(c, c2, directive(c2, call, sym));
        },
        None => {},
    }
}

proof fn lemma_visited(c: CtxView, n: NodeView)
    ensures
        keeps(c, visited(c, n)),
{
    let c1 = show_ruled(page_sized(c, n), n);
    assert(keeps(c, c1));
    lemma_called(c1, n);
    lemma_keeps_trans(c, c1, called(c1, n));
    assert(keeps(c1, import_walked(c1, n)));
}

proof fn lemma_scope(c: CtxView, d: CtxView)
    requires
        keeps(scope_opened(c), d),
    ensures
        keeps(c, scope_closed(d, c.next_scope_id, c.cursor, c.symbol_map)),
{
    assert(d.scope_stack == c.scope_stack.push(c.next_scope_id));
    assert(d.scope_stack.drop_last() =~= c.scope_stack);
    if sound(c) {
        assert(sound(scope_opened(c)));
    }
}

proof fn lemma_scene(c: CtxView, call: NodeView, d: CtxView)
    requires
        scene_opened(c, call) is Ok,
        keeps(scene_opened(c, call)->Ok_0, d),
    ensures
        keeps(c, scene_closed(d, c.next_scene_id)),
{
    let o = scene_opened(c, call)->Ok_0;
    assert(o.scene_stack =~= seq![c.next_scene_id]);
    assert(d.scene_stack.drop_last() =~= c.scene_stack);
    if sound(c) {
        assert(sound(o));
    }
}

/// A walk over a tree keeps what holds at all times: the timeline reaches over every slide,
/// labels stay in the order of their declaration, keyframes ascend. Time never runs back, nothing
/// that was recorded is changed, and every scope and scene that is opened is closed again.
pub proof fn law_walk_keeps(c: CtxView, n: NodeView)
    ensures
        keeps(c, walked(c, n)),
    decreases n,
{
    let c1 = let_bound(c, n);
    assert(keeps(c, c1));
    if n.kind == Kind::FuncCall && symbol_of(c1, n) == Some("scene"@) {
        match scene_opened(c1, n) {
            Err(c2) => {
                assert(keeps(c1, c2));
            },
            Ok(c2) => {
                lemma_walked_all(c2, n.children);
                lemma_scene(c1, n, walked_all(c2, n.children));
            },
        }
    } else {
        let c2 = visited(c1, n);
        lemma_visited(c1, n);
        lemma_keeps_trans(c, c1, c2);
        if n.kind == Kind::CodeBlock {
            lemma_walked_all(scope_opened(c2), n.children);
            lemma_scope(c2, walked_all(scope_opened(c2), n.children));
            lemma_keeps_trans(c, c2, walked(c, n));
        } else {
            lemma_walked_all(c2, n.children);
            lemma_keeps_trans(c, c2, walked_all(c2, n.children));
        }
    }
}

proof fn lemma_walked_all(c: CtxView, s: Seq<NodeView>)
    ensures
        keeps(c, walked_all(c, s)),
    decreases s,
{
    if s.len() > 0 {
        let c1 = walked_all(c, s.drop_last());
        lemma_walked_all(c, s.drop_last());
        law_walk_keeps(c1, s.last());
        lemma_keeps_trans(c, c1, walked(c1, s.last()));
    }
}

/// After the walk over a document the timeline reaches over every slide, every slide lasts at least
/// a millisecond, every label that has a scene is listed once, in the order of declaration, and keyframes ascend.
pub proof fn law_document_sound(source: Seq<char>, config: GlobalConfig)
    ensures
        sound(walked(crate::parse::fresh(source, config), document(source))),
{
    law_walk_keeps(crate::parse::fresh(source, config), document(source));
}

/// A code block leaves the meaning of every name as it was before: what is bound inside hides a
/// directive up to its end only.
pub proof fn law_block_restores_names(c: CtxView, n: NodeView)
    requires
        n.kind == Kind::CodeBlock,
    ensures
        walked(c, n).symbol_map == c.symbol_map,
{
}

/// A walk leaves the open scopes and scenes as they were: what is opened on the way is closed.
pub proof fn law_walk_closes_scopes(c: CtxView, n: NodeView)
    ensures
        walked(c, n).scope_stack == c.scope_stack,
        walked(c, n).scene_stack == c.scene_stack,
{
    law_walk_keeps(c, n);
}

/// A scene inside a scene is a fault, and nothing of it is taken into the document.
pub proof fn law_nested_scene_is_refused(c: CtxView, n: NodeView)
    requires
        c.scene_stack.len() > 0,
        n.kind == Kind::FuncCall,
        symbol_of(c, n) == Some("scene"@),
    ensures
        walked(c, n) == c.failed(nested_fault(n)),
        walked(c, n).pending_error is Some,
{
}

proof fn lemma_settled_lasts(c: CtxView, names: Seq<Seq<char>>)
    requires
        lasting(c.slides),
    ensures
        crate::parse::settled(c, names) matches Ok(d) ==> lasting(d.slides),
{
    if crate::parse::settled(c, names) is Ok {
        let scenes = crate::parse::sized(c.scenes, 0, (c.config.width, c.config.height));
        let kept = if crate::parse::has_explicit(scenes) {
            crate::parse::explicit(scenes)
        } else {
            scenes
        };
        let d = CtxView {
            slides: crate::parse::at_least_a_pause(c.slides),
            scenes: crate::parse::named(kept, names),
            ..c
        };
        assert(lasting(d.slides));
        if crate::switching::has_switch(d.slides) {
            let picks = crate::switching::picked(d.slides, d.scenes, 0, 0);
            crate::switching::law_playing_keeps_slides(d, picks);
            let out = crate::switching::switched(d)->Ok_0.slides;
            assert forall|i: int| 0 <= i < out.len() implies (#[trigger] out[i]).duration_ms
                >= 1 by {
                assert(0 <= picks[i] < d.slides.len());
                assert(out[i].duration_ms == d.slides[picks[i]].duration_ms);
            }
        }
    }
}

/// Every slide of a parsed document lasts at least a millisecond, and there is one.
pub proof fn law_slides_last(input: crate::parse::Input, policy: crate::parse::VersionPolicy)
    ensures
        crate::parse::parsed(input, policy) matches Ok(scene) ==> scene.slides.len() > 0 && lasting(
            scene.slides,
        ),
{
    let files = crate::scene::seq_view(input.files@);
    let root = crate::includes::LinkView {
        canon: input.canon@,
        from: crate::includes::frame_at(
            input.path@,
            input.source@,
            crate::scene::Span {
                start: 0,
                end: vstd::utf8::encode_utf8(input.source@).len() as usize,
            },
        ),
    };
    match crate::includes::expanded(files, input.path@, input.source@, 0, seq![root]) {
        Ok(x) => {
            let c = walked(crate::parse::fresh(x.text, input.config), document(x.text));
            let names = crate::text::texts(input.names@);
            law_document_sound(x.text, input.config);
            lemma_settled_lasts(crate::parse::wound_up(c), names);
            crate::parse::law_always_a_slide(crate::parse::wound_up(c), names);
        },
        Err(_) => {},
    }
}

} // verus!
