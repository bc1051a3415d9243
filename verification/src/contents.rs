//! What is shown and heard: laws on the directives that declare, replace and caption contents.

use vstd::prelude::*;
use crate::args::{
    delay_arg, duration_arg, number_or, optional_duration, place_arg, target_label, timing_arg,
};
use crate::arguments::array_of;
use crate::composite::{
    fade_transform, inline_content, morph, reveal_switches, reveal_text, spiral_in, step_count,
    steps, subtitle, transform,
};
use crate::context::CtxView;
use crate::directives::{audio, flag, grouped, literal_items, mobject, play};
use crate::dispatch::{
    is_audio, is_blink, is_fade_transform, is_group, is_mobject, is_morph, is_play, is_reveal,
    is_spiral_in, is_subtitle, is_transform, is_typewriter,
};
use crate::easing::Easing;
use crate::effects::{
    angle_given, capped, eased, entry_start, only_time, ratio_given, slide_added, whole_degrees,
    whole_percent,
};
use crate::expr::{
    arg_text, is_typst_ident, named_or_pos, named_value, pair_value, pos_arg, pos_or_named,
    source_text, source_texts, string_value, unquoted,
};
use crate::number::Number;
use crate::scene::{acted_on, ActionView, SlideView, SwitchView};
use crate::syntax::{Kind, NodeView};
use crate::text::{decimal, is_space, words};
use crate::walk::directive;

verus! {

// ---------------------------------------------------------------- source text

/// The source of a node is the text of its leaves, one after the other.
pub proof fn law_source_text(n: NodeView, a: Seq<NodeView>, b: Seq<NodeView>)
    ensures
        n.children.len() == 0 ==> source_text(n) == n.text,
        n.text.len() == 0 ==> source_text(n) == source_texts(n.children),
        source_texts(seq![n]) == source_text(n),
        source_texts(a + b) == source_texts(a) + source_texts(b),
    decreases b.len(),
{
    let none = Seq::<NodeView>::empty();
    assert(source_texts(none) =~= Seq::<char>::empty());
    assert(seq![n].drop_last() =~= none);
    assert(source_texts(seq![n]) == source_texts(none) + source_text(n));
    assert(source_texts(none) + source_text(n) =~= source_text(n));
    assert(n.children.len() == 0 ==> n.text + source_texts(n.children) =~= n.text);
    assert(n.text.len() == 0 ==> n.text + source_texts(n.children) =~= source_texts(n.children));
    if b.len() == 0 {
        assert(a + b =~= a);
        assert(source_texts(a) + source_texts(b) =~= source_texts(a));
    } else {
        law_source_text(n, a, b.drop_last());
        assert((a + b).drop_last() =~= a + b.drop_last());
        assert((a + b).last() == b.last());
        assert(source_texts(a) + (source_texts(b.drop_last()) + source_text(b.last())) =~= (
        source_texts(a) + source_texts(b.drop_last())) + source_text(b.last()));
    }
}

// ---------------------------------------------------------------- declaring

/// `mobject` declares what its label shows from the start on: its body as it was written, at the
/// origin, upright, in full size and fully visible, in the scene that is open. The timeline stays
/// as it is, and so does every other mobject.
pub proof fn law_mobject(
    c: CtxView,
    call: NodeView,
    e: NodeView,
    label: Seq<char>,
    body: NodeView,
    other: Seq<char>,
)
    requires
        pos_or_named(call, 0, "label"@) == Some(e),
        e.value == Some(label),
        is_typst_ident(label),
        pos_or_named(call, 1, "body"@) == Some(body),
        body.kind != Kind::Named,
        other != label,
    ensures
        ({
            let d = directive(c, call, "mobject"@);
            &&& d.items.contains_key(label) && d.items[label] == source_text(body)
            &&& d.items.contains_key(other) == c.items.contains_key(other)
            &&& c.items.contains_key(other) ==> d.items[other] == c.items[other]
            &&& d.initial.contains_key(label)
            &&& d.initial[label].target == label && d.initial[label].time_ms == 0
            &&& d.initial[label].x == Number::Int(0) && d.initial[label].y == Number::Int(0)
            &&& d.initial[label].scale == Number::Int(1)
            &&& d.initial[label].opacity == Number::Int(1)
            &&& d.initial[label].rotation == Number::Int(0)
            &&& d.label_scene.contains_key(label) && d.label_scene[label] == c.current_scene
            &&& c.label_scene.contains_key(label) ==> d.label_order == c.label_order
            &&& !c.label_scene.contains_key(label) ==> d.label_order.len() == c.label_order.len()
                + 1 && d.label_order.last() == label && d.label_order.drop_last() == c.label_order
            &&& d.slides == c.slides && d.cursor == c.cursor && d.timeline_start
                == c.timeline_start
            &&& d.pending_error == c.pending_error
            &&& d.mobject_body_ranges.contains_key(label) && d.mobject_body_ranges[label].start
                == body.start as usize && d.mobject_body_ranges[label].end == body.end as usize
            &&& c.mobject_names.contains((c.scope(), label)) ==> d.warnings.len()
                == c.warnings.len() + 1
            &&& !c.mobject_names.contains((c.scope(), label)) ==> d.warnings == c.warnings
                && d.mobject_names.contains((c.scope(), label))
        }),
{
    is_mobject(c, call);
    let d = mobject(c, call);
    if !c.label_scene.contains_key(label) {
        assert(d.label_order.drop_last() =~= c.label_order);
    }
    if !c.mobject_names.contains((c.scope(), label)) {
        let k = c.mobject_names.len() as int;
        assert(d.mobject_names[k] == (c.scope(), label));
    }
}

/// A label that is no string, or no name, is a fault, and declares nothing.
pub proof fn law_mobject_needs_a_name(c: CtxView, call: NodeView, e: NodeView)
    requires
        pos_or_named(call, 0, "label"@) == Some(e),
        e.value matches Some(s) ==> !is_typst_ident(s),
    ensures
        ({
            let d = directive(c, call, "mobject"@);
            &&& d.pending_error is Some
            &&& c.pending_error is Some ==> d.pending_error == c.pending_error
            &&& d.items == c.items && d.label_scene == c.label_scene && d.slides == c.slides
        }),
{
    is_mobject(c, call);
}

/// `play` shows its body under a label of its own: it fades in, lasts for its duration, and is
/// hidden right after it.
pub proof fn law_play(c: CtxView, call: NodeView, body: NodeView)
    requires
        pos_or_named(call, 0, "body"@) == Some(body),
        body.kind != Kind::Named,
    ensures
        ({
            let d = directive(c, call, "play"@);
            let label = "__block_"@ + decimal(c.block_counter as nat);
            let n = c.slides.len() as int;
            let duration = duration_arg(call, 500) as int;
            &&& d.items.contains_key(label) && d.items[label] == source_text(body)
            &&& d.label_scene.contains_key(label) && d.label_scene[label] == c.current_scene
            &&& d.initial[label].opacity == Number::Int(0)
            &&& d.slides.len() == n + 2
            &&& d.slides.take(n) == c.slides
            &&& d.slides[n].start_ms == c.cursor && d.slides[n].duration_ms == duration
            &&& d.slides[n].actions == seq![
                ActionView::FadeIn { target: label, easing: Easing::Linear },
            ]
            &&& d.slides[n + 1].start_ms == capped(c.cursor + duration)
            &&& d.slides[n + 1].duration_ms == 1
            &&& d.slides[n + 1].actions == seq![ActionView::Hide { target: label }]
            &&& d.cursor == capped(c.cursor + duration + 1)
            &&& c.block_counter < usize::MAX ==> d.block_counter == c.block_counter + 1
        }),
{
    is_play(c, call);
    assert(play(c, call).slides.take(c.slides.len() as int) =~= c.slides);
}

proof fn lemma_grouped(
    groups: Map<Seq<char>, Seq<char>>,
    parent: Seq<char>,
    s: Seq<NodeView>,
    child: Seq<char>,
)
    ensures
        ({
            let g = grouped(groups, parent, s);
            let member = exists|i: int| 0 <= i < s.len() && (#[trigger] s[i]).value == Some(child);
            &&& member ==> g.contains_key(child) && g[child] == parent
            &&& !member ==> g.contains_key(child) == groups.contains_key(child) && (
            groups.contains_key(child) ==> g[child] == groups[child])
        }),
    decreases s.len(),
{
    if s.len() > 0 {
        let t = s.drop_last();
        lemma_grouped(groups, parent, t, child);
        let before = exists|i: int| 0 <= i < t.len() && (#[trigger] t[i]).value == Some(child);
        if before {
            let i = choose|i: int| 0 <= i < t.len() && (#[trigger] t[i]).value == Some(child);
            assert(s[i].value == Some(child));
        } else {
            assert(s[s.len() - 1] == s.last());
            assert forall|i: int| 0 <= i < s.len() - 1 implies (#[trigger] s[i]).value != Some(
                child,
            ) by {
                assert(t[i] == s[i]);
            }
        }
    }
}

/// `group` puts every member that it names under the group, and nothing else.
pub proof fn law_group(
    c: CtxView,
    call: NodeView,
    name: Seq<char>,
    e: NodeView,
    s: Seq<NodeView>,
    child: Seq<char>,
)
    requires
        string_value(pos_or_named(call, 0, "name"@)) == Some(name),
        named_or_pos(call, "members"@, 1) == Some(e),
        array_of(e, s),
    ensures
        ({
            let d = directive(c, call, "group"@);
            let member = exists|i: int| 0 <= i < s.len() && (#[trigger] s[i]).value == Some(child);
            &&& member ==> d.groups.contains_key(child) && d.groups[child] == name
            &&& !member ==> d.groups.contains_key(child) == c.groups.contains_key(child) && (
            c.groups.contains_key(child) ==> d.groups[child] == c.groups[child])
            &&& d.items.contains_key(name)
            &&& c.items.contains_key(name) ==> d.items == c.items
            &&& !c.items.contains_key(name) ==> d.items[name] == "none"@
            &&& d.slides == c.slides && d.cursor == c.cursor
        }),
{
    is_group(c, call);
    crate::arguments::lemma_items_filter(e.children);
    assert(literal_items(named_or_pos(call, "members"@, 1)) == s);
    lemma_grouped(c.groups, name, s, child);
}

/// `audio` adds one track, with what the call says, and changes nothing else: slides go on while
/// it is heard.
pub proof fn law_audio(c: CtxView, call: NodeView, path: Seq<char>)
    requires
        string_value(pos_arg(call, 0)) == Some(path),
    ensures
        ({
            let d = directive(c, call, "audio"@);
            let t = d.audio.last();
            &&& d == (CtxView { audio: d.audio, ..c })
            &&& d.audio.len() == c.audio.len() + 1
            &&& d.audio.drop_last() == c.audio
            &&& t.path == path
            &&& t.start_ms == entry_start(c, call)
            &&& t.blocking == flag(call, "blocking"@)
            &&& t.loop_track == flag(call, "loop"@)
            &&& t.volume == number_or(call, "volume"@, 1)
            &&& t.slice == pair_value(named_value(call, "slice"@))
        }),
{
    is_audio(c, call);
    assert(audio(c, call).audio.drop_last() =~= c.audio);
}

// ---------------------------------------------------------------- several slides

/// Whether a slide does the given things at the given time.
pub open spec fn slide_is(
    s: SlideView,
    start: int,
    duration: int,
    actions: Seq<ActionView>,
) -> bool {
    s.start_ms == start && s.duration_ms == duration && s.actions == actions
}

proof fn lemma_blinks(c: CtxView, label: Seq<char>, easing: Easing, half: u32, n: nat)
    ensures
        ({
            let d = crate::composite::blinks(c, label, easing, half, n);
            let m = c.slides.len();
            &&& d.slides.len() == m + 2 * n
            &&& forall|k: int| 0 <= k < m ==> #[trigger] d.slides[k] == c.slides[k]
            &&& forall|k: int|
                0 <= k < 2 * n ==> slide_is(
                    #[trigger] d.slides[m + k],
                    capped(c.entry_end + k * half),
                    half as int,
                    seq![
                        ActionView::FadeTo {
                            target: label,
                            opacity: whole_percent(
                                if k % 2 == 0 {
                                    0
                                } else {
                                    100
                                },
                            ),
                            easing,
                        },
                    ],
                )
            &&& d.entry_end == capped(c.entry_end + 2 * n * half)
            &&& d == (CtxView { slides: d.slides, entry_end: d.entry_end, ..c })
        }),
    decreases n,
{
    if n > 0 {
        let b = crate::composite::blinks(c, label, easing, half, (n - 1) as nat);
        lemma_blinks(c, label, easing, half, (n - 1) as nat);
        let d = crate::composite::blinks(c, label, easing, half, n);
        let m = c.slides.len();
        assert(2 * (n - 1) * half + half == (2 * n - 1) * half) by (nonlinear_arith);
        assert((2 * n - 1) * half + half == 2 * n * half) by (nonlinear_arith);
        assert(0 <= 2 * (n - 1) * half) by (nonlinear_arith)
            requires
                n > 0,
                half >= 0,
        ;
        assert forall|k: int| 0 <= k < m implies #[trigger] d.slides[k] == c.slides[k] by {
            assert(d.slides[k] == b.slides[k]);
        }
        assert forall|k: int| 0 <= k < 2 * n implies slide_is(
            #[trigger] d.slides[m + k],
            capped(c.entry_end + k * half),
            half as int,
            seq![
                ActionView::FadeTo {
                    target: label,
                    opacity: whole_percent(
                        if k % 2 == 0 {
                            0
                        } else {
                            100
                        },
                    ),
                    easing,
                },
            ],
        ) by {
            if k < 2 * (n - 1) {
                assert(d.slides[m + k] == b.slides[m + k]);
            } else if k == 2 * (n - 1) {
                assert(k % 2 == 0);
            } else {
                assert(k == 2 * n - 1);
                assert(k % 2 == 1);
            }
        }
    } else {
        assert(0 * half == 0);
    }
}

/// `blink` makes its target vanish and come back as often as it says, 3 times by default: one
/// slide for each, the first ones taking it away, all of the same length, one after the other.
#[verifier::rlimit(30)]
pub proof fn law_blink(c: CtxView, call: NodeView, label: Seq<char>, n: u32)
    requires
        target_label(call) == Some(label),
        number_or(call, "blinks"@, 3) == Number::Int(n as i64),
        1 <= n <= 0x7fff_ffff,
    ensures
        ({
            let d = directive(c, call, "blink"@);
            let m = c.slides.len();
            let half = d.slides[m as int].duration_ms;
            let duration = duration_arg(call, 500);
            &&& d.slides.len() == m + 2 * n
            &&& forall|k: int| 0 <= k < m ==> #[trigger] d.slides[k] == c.slides[k]
            &&& forall|k: int|
                0 <= k < 2 * n ==> slide_is(
                    #[trigger] d.slides[m + k],
                    capped(entry_start(c, call) + k * half),
                    half as int,
                    seq![
                        ActionView::FadeTo {
                            target: label,
                            opacity: whole_percent(
                                if k % 2 == 0 {
                                    0
                                } else {
                                    100
                                },
                            ),
                            easing: eased(call, Easing::Linear),
                        },
                    ],
                )
            &&& half >= 1
            &&& duration >= 2 * n ==> half * (2 * n) <= duration < (half + 1) * (2 * n)
            &&& d.timeline_start == entry_start(c, call)
            &&& only_time(c, d)
        }),
{
    is_blink(c, call);
    let half = crate::composite::half_blink(duration_arg(call, 500), n);
    let (c1, easing) = crate::args::easing_step(c, call, label, Easing::Linear);
    let c2 = c1.opened(timing_arg(call), delay_arg(call));
    lemma_blinks(c2, label, easing, half, n as nat);
    let d = crate::composite::blinks(c2, label, easing, half, n as nat);
    assert(0 * half == 0);
    assert(d.slides[c.slides.len() + 0int].duration_ms == half);
    let duration = duration_arg(call, 500) as int;
    let halves = 2 * n;
    if duration >= halves {
        assert(duration / halves >= 1 && duration / halves * halves <= duration < (duration / halves
            + 1) * halves) by (nonlinear_arith)
            requires
                duration >= halves,
                halves > 0,
        ;
    } else {
        assert(duration / halves == 0) by (nonlinear_arith)
            requires
                0 <= duration < halves,
        ;
    }
}

/// `spiral-in` first makes its target large, turned and invisible, then brings it back to full
/// size, upright and visible.
pub proof fn law_spiral_in(c: CtxView, call: NodeView, label: Seq<char>)
    requires
        target_label(call) == Some(label),
    ensures
        ({
            let d = directive(c, call, "spiral-in"@);
            let n = c.slides.len() as int;
            let easing = eased(call, Easing::Smooth);
            let start = entry_start(c, call);
            &&& d.slides.len() == n + 2
            &&& d.slides.take(n) == c.slides
            &&& slide_is(
                d.slides[n],
                start,
                1,
                seq![
                    ActionView::ScaleBy {
                        target: label,
                        factor: ratio_given(call, "scale"@, whole_percent(300)),
                        easing,
                    },
                    ActionView::RotateBy {
                        target: label,
                        delta_degrees: angle_given(call, "rotate"@, whole_degrees(360)),
                        easing,
                    },
                    ActionView::Hide { target: label },
                ],
            )
            &&& slide_is(
                d.slides[n + 1],
                capped(start + 1),
                duration_arg(call, 300) as int,
                seq![
                    ActionView::Scale { target: label, to: whole_percent(100), easing },
                    ActionView::Rotate { target: label, degrees: whole_degrees(0), easing },
                    ActionView::FadeIn { target: label, easing },
                ],
            )
            &&& only_time(c, d)
        }),
{
    is_spiral_in(c, call);
    assert(spiral_in(c, call).slides.take(c.slides.len() as int) =~= c.slides);
}

/// `fade-transform` fades one mobject out while another fades in, which is hidden before that,
/// from the very beginning where nothing was done to it yet.
pub proof fn law_fade_transform(c: CtxView, call: NodeView, from: Seq<char>, to: Seq<char>)
    requires
        string_value(pos_or_named(call, 0, "from"@)) == Some(from),
        string_value(pos_or_named(call, 1, "to"@)) == Some(to),
    ensures
        ({
            let d = directive(c, call, "fade-transform"@);
            let m = c.slides.len() as int;
            let n = if acted_on(c.slides, to) {
                m
            } else {
                m + 1
            };
            let easing = eased(call, Easing::Smooth);
            let start = entry_start(c, call);
            &&& d.slides.len() == n + 2
            &&& d.slides.take(m) == c.slides
            &&& !acted_on(c.slides, to) ==> slide_is(
                d.slides[m],
                0,
                1,
                seq![ActionView::Hide { target: to }],
            )
            &&& slide_is(d.slides[n], start, 1, seq![ActionView::Hide { target: to }])
            &&& slide_is(
                d.slides[n + 1],
                capped(start + 1),
                duration_arg(call, 300) as int,
                seq![
                    ActionView::FadeOut { target: from, easing },
                    ActionView::FadeIn { target: to, easing },
                ],
            )
            &&& only_time(c, d)
        }),
{
    is_fade_transform(c, call);
    assert(fade_transform(c, call).slides.take(c.slides.len() as int) =~= c.slides);
}

/// `morph` turns one mobject into another by its outline: the pair is noted for just the time in
/// which the first one shrinks away and the second one, hidden before, fades in.
pub proof fn law_morph(c: CtxView, call: NodeView, from: Seq<char>, to: Seq<char>)
    requires
        string_value(pos_arg(call, 0)) == Some(from),
        string_value(pos_arg(call, 1)) == Some(to),
    ensures
        ({
            let d = directive(c, call, "morph"@);
            let n = c.slides.len() as int;
            let easing = eased(call, Easing::Smooth);
            let start = entry_start(c, call);
            let p = d.morph_pairs.last();
            &&& d.slides.len() == n + 2
            &&& d.slides.take(n) == c.slides
            &&& slide_is(d.slides[n], start, 1, seq![ActionView::Hide { target: to }])
            &&& slide_is(
                d.slides[n + 1],
                capped(start + 1),
                duration_arg(call, 500) as int,
                seq![
                    ActionView::ScaleBy { target: from, factor: whole_percent(1), easing },
                    ActionView::FadeOut { target: from, easing },
                    ActionView::FadeIn { target: to, easing },
                ],
            )
            &&& d.morph_pairs.len() == c.morph_pairs.len() + 1
            &&& d.morph_pairs.drop_last() == c.morph_pairs
            &&& p.from == from && p.to == to && p.to_body is None && p.easing == easing
            &&& p.start_ms == d.slides[n + 1].start_ms
            &&& p.end_ms == capped(p.start_ms + d.slides[n + 1].duration_ms)
        }),
{
    is_morph(c, call);
    assert(morph(c, call).slides.take(c.slides.len() as int) =~= c.slides);
    assert(morph(c, call).morph_pairs.drop_last() =~= c.morph_pairs);
}

// ---------------------------------------------------------------- transform

/// What a mobject shows at the end of everything so far: what its last content switch shows, and
/// where there is none, what it was declared with.
pub open spec fn shows(c: CtxView, label: Seq<char>, body: Seq<char>) -> bool {
    let switched = c.content_timeline.contains_key(label) && c.content_timeline[label].len() > 0;
    &&& switched ==> body == c.content_timeline[label][c.content_timeline[label].len() - 1].body
    &&& !switched ==> c.items.contains_key(label) && body == c.items[label]
}

/// The label under which the `n`th transform keeps the old content of a mobject.
pub open spec fn kept_label(label: Seq<char>, n: nat) -> Seq<char> {
    "__xf_"@ + label + "_"@ + decimal(n)
}

/// `transform` turns what its target shows now into the new content: the old content is kept under
/// a label of its own, the target shows the new content from one millisecond into the transform on,
/// and contents that are both inline change glyph by glyph, all others by their outline.
#[verifier::rlimit(30)]
pub proof fn law_transform(
    c: CtxView,
    call: NodeView,
    label: Seq<char>,
    to: NodeView,
    old: Seq<char>,
    other: Seq<char>,
)
    requires
        target_label(call) == Some(label),
        pos_or_named(call, 1, "to"@) == Some(to),
        arg_text(to).len() > 0,
        shows(c, label, old),
        old.len() > 0,
        other != kept_label(label, c.xf_counter as nat),
    ensures
        ({
            let d = directive(c, call, "transform"@);
            let kept = kept_label(label, c.xf_counter as nat);
            let at = capped(entry_start(c, call) + 1);
            let duration = duration_arg(call, 500) as int;
            let easing = eased(call, Easing::Smooth);
            &&& d.items.contains_key(kept) && d.items[kept] == old
            &&& d.items.contains_key(other) == c.items.contains_key(other)
            &&& c.items.contains_key(other) ==> d.items[other] == c.items[other]
            &&& shows(d, label, arg_text(to))
            &&& d.content_timeline[label].last().at_ms == at
            &&& c.content_timeline.contains_key(label) ==> d.content_timeline[label].drop_last()
                == c.content_timeline[label]
            &&& !c.content_timeline.contains_key(label) ==> d.content_timeline[label].len() == 1
            &&& slide_is(
                d.slides.last(),
                at,
                duration,
                seq![ActionView::Transform { target: label, old: kept, easing }],
            )
            &&& d.slides.drop_last() == c.slides
            &&& d.timeline_start == entry_start(c, call)
            &&& d.initial.contains_key(kept) && d.initial[kept].opacity == Number::Int(0)
            &&& d.label_scene.contains_key(kept) && d.label_scene[kept] == (
            if c.label_scene.contains_key(label) {
                c.label_scene[label]
            } else {
                c.current_scene
            })
            &&& c.xf_counter < usize::MAX ==> d.xf_counter == c.xf_counter + 1
            &&& inline_content(old) && inline_content(arg_text(to)) ==> {
                let p = d.transform_plans.last();
                &&& d.morph_pairs == c.morph_pairs
                &&& d.transform_plans.drop_last() == c.transform_plans
                &&& d.transform_plans.len() == c.transform_plans.len() + 1
                &&& p.target == label && p.old == kept
                &&& p.old_body == old && p.new_body == arg_text(to)
                &&& p.start_ms == at && p.end_ms == capped(at + duration) && p.easing == easing
            }
            &&& !(inline_content(old) && inline_content(arg_text(to))) ==> {
                let p = d.morph_pairs.last();
                &&& d.transform_plans == c.transform_plans
                &&& d.morph_pairs.drop_last() == c.morph_pairs
                &&& d.morph_pairs.len() == c.morph_pairs.len() + 1
                &&& p.from == kept && p.to == label && p.to_body == Some(arg_text(to))
                &&& p.start_ms == at && p.end_ms == capped(at + duration) && p.easing == easing
            }
        }),
{
    is_transform(c, call);
    let d = transform(c, call);
    assert(d.slides.drop_last() =~= c.slides);
    assert(d.transform_plans.len() == c.transform_plans.len() + 1
        ==> d.transform_plans.drop_last() =~= c.transform_plans);
    assert(d.morph_pairs.len() == c.morph_pairs.len() + 1 ==> d.morph_pairs.drop_last()
        =~= c.morph_pairs);
    if c.content_timeline.contains_key(label) {
        assert(d.content_timeline[label].drop_last() =~= c.content_timeline[label]);
    }
}

/// Two transforms of one mobject, one right after the other: the second one starts from what the
/// first one ended with.
#[verifier::rlimit(30)]
pub proof fn law_chained_transforms(
    c: CtxView,
    first: NodeView,
    second: NodeView,
    label: Seq<char>,
    mid: NodeView,
    end: NodeView,
    old: Seq<char>,
)
    requires
        target_label(first) == Some(label),
        target_label(second) == Some(label),
        pos_or_named(first, 1, "to"@) == Some(mid),
        pos_or_named(second, 1, "to"@) == Some(end),
        arg_text(mid).len() > 0,
        arg_text(end).len() > 0,
        shows(c, label, old),
        old.len() > 0,
        c.xf_counter < usize::MAX,
    ensures
        ({
            let d = directive(directive(c, first, "transform"@), second, "transform"@);
            let n = c.transform_plans.len() as int;
            &&& d.items[kept_label(label, c.xf_counter as nat + 1)] == arg_text(mid)
            &&& d.items[kept_label(label, c.xf_counter as nat)] == old
            &&& shows(d, label, arg_text(end))
            &&& inline_content(old) && inline_content(arg_text(mid)) && inline_content(
                arg_text(end),
            ) ==> {
                &&& d.transform_plans.len() == n + 2
                &&& d.transform_plans[n].old_body == old
                &&& d.transform_plans[n].new_body == arg_text(mid)
                &&& d.transform_plans[n + 1].old_body == d.transform_plans[n].new_body
                &&& d.transform_plans[n + 1].new_body == arg_text(end)
            }
        }),
{
    let c1 = directive(c, first, "transform"@);
    let k0 = kept_label(label, c.xf_counter as nat);
    let k1 = kept_label(label, c.xf_counter as nat + 1);
    assert(k0 != k1) by {
        crate::text::law_decimal_read_back(c.xf_counter as nat);
        crate::text::law_decimal_read_back(c.xf_counter as nat + 1);
        let front = "__xf_"@ + label + "_"@;
        assert(k0.skip(front.len() as int) =~= decimal(c.xf_counter as nat));
        assert(k1.skip(front.len() as int) =~= decimal(c.xf_counter as nat + 1));
    }
    law_transform(c, first, label, mid, old, k1);
    law_transform(c1, second, label, end, arg_text(mid), k0);
    let d = directive(c1, second, "transform"@);
    let n = c.transform_plans.len() as int;
    if inline_content(old) && inline_content(arg_text(mid)) && inline_content(arg_text(end)) {
        assert(d.transform_plans[n] == d.transform_plans.drop_last()[n]);
        assert(c1.transform_plans[n] == c1.transform_plans.last());
    }
}

/// A transform of what shows nothing fades the new content in.
pub proof fn law_transform_of_nothing(c: CtxView, call: NodeView, label: Seq<char>, to: NodeView)
    requires
        target_label(call) == Some(label),
        pos_or_named(call, 1, "to"@) == Some(to),
        arg_text(to).len() > 0,
        !c.items.contains_key(label),
        !c.content_timeline.contains_key(label),
    ensures
        ({
            let d = directive(c, call, "transform"@);
            &&& d.items.contains_key(label) && d.items[label] == arg_text(to)
            &&& d.initial[label].opacity == Number::Int(0)
            &&& slide_added(c, d, entry_start(c, call), duration_arg(call, 500) as int)
            &&& d.slides.last().actions == seq![
                ActionView::FadeIn { target: label, easing: eased(call, Easing::Smooth) },
            ]
            &&& d.transform_plans == c.transform_plans && d.morph_pairs == c.morph_pairs
        }),
{
    is_transform(c, call);
    assert(transform(c, call).slides.drop_last() =~= c.slides);
}

/// Formulas and texts are inline, shapes are not: a body in square brackets that starts with a
/// dollar sign is inline, whatever it holds; another one is unless it calls for a shape.
#[verifier::rlimit(30)]
pub proof fn law_inline(body: Seq<char>, inner: Seq<char>, shape: int)
    requires
        body == seq!['['] + inner + seq![']'],
        inner.len() > 0,
        !is_space(inner[0]),
        !is_space(inner.last()),
        0 <= shape < shapes().len(),
    ensures
        inner[0] == '$' ==> inline_content(body),
        inner[0] != '$' && (exists|k: int|
            0 <= k && k + shapes()[shape].len() <= inner.len() && #[trigger] inner.subrange(
                k,
                k + shapes()[shape].len(),
            ) == shapes()[shape]) ==> !inline_content(body),
        (forall|i: int, k: int|
            0 <= i < shapes().len() && 0 <= k && k + shapes()[i].len() <= inner.len()
                ==> #[trigger] inner.subrange(k, k + shapes()[i].len()) != shapes()[i])
            ==> inline_content(body),
{
    let n = body.len() as int;
    assert(body[0] == '[' && body[n - 1] == ']');
    assert(crate::text::trimmed(body) == body);
    assert(body.subrange(1, n - 1) =~= inner);
    assert(crate::text::trimmed(inner) == inner);
    assert(crate::composite::inner_content(body) == inner);
    let w = crate::composite::shape_words();
    assert(w =~= shapes());
    if inner[0] != '$' {
        if exists|k: int|
            0 <= k && k + w[shape].len() <= inner.len() && #[trigger] inner.subrange(
                k,
                k + w[shape].len(),
            ) == w[shape] {
            let k = choose|k: int|
                0 <= k && k + w[shape].len() <= inner.len() && #[trigger] inner.subrange(
                    k,
                    k + w[shape].len(),
                ) == w[shape];
            assert(crate::text::stands_at(inner, w[shape], k));
            assert(crate::text::contains_text(inner, w[shape]));
        }
        if forall|i: int, k: int|
            0 <= i < w.len() && 0 <= k && k + w[i].len() <= inner.len() ==> #[trigger]
                inner.subrange(k, k + w[i].len()) != w[i] {
            assert forall|i: int| 0 <= i < w.len() implies !crate::text::contains_text(
                inner,
                #[trigger] w[i],
            ) by {
                assert forall|k: int| !#[trigger] crate::text::stands_at(inner, w[i], k) by {
                    if 0 <= k && k + w[i].len() <= inner.len() {
                        assert(inner.subrange(k, k + w[i].len()) != w[i]);
                    }
                }
            }
        }
    }
}

/// The calls that draw a shape.
pub open spec fn shapes() -> Seq<Seq<char>> {
    seq![
        "circle("@,
        "rect("@,
        "ellipse("@,
        "square("@,
        "triangle("@,
        "polygon("@,
        "line("@,
        "path("@,
        "arrow("@,
        "arc("@,
        "image("@,
    ]
}

// ---------------------------------------------------------------- reveal

proof fn lemma_joined_chars(s: Seq<char>, k: int)
    requires
        0 <= k <= s.len(),
    ensures
        crate::composite::joined(
            s.map_values(|c: char| seq![c]).take(k),
            Seq::empty(),
        ) == s.take(k),
    decreases k,
{
    let m = s.map_values(|c: char| seq![c]);
    let none = Seq::<char>::empty();
    if k == 0 {
        assert(crate::composite::joined(m.take(0), none) =~= s.take(0));
    } else if k == 1 {
        assert(m.take(1)[0] =~= s.take(1));
    } else {
        lemma_joined_chars(s, k - 1);
        assert(m.take(k).drop_last() =~= m.take(k - 1));
        assert(s.take(k - 1) + none + m[k - 1] =~= s.take(k));
    }
}

/// A text that is revealed by characters comes up one character at a time: step k shows its first
/// k characters, between quotes. The steps share out the duration evenly, rounded up, and none is
/// later than its end.
pub proof fn law_reveal_by_characters(start: u32, duration: u32, inner: Seq<char>, k: int)
    requires
        1 <= k <= inner.len(),
    ensures
        ({
            let t = reveal_switches(start, duration, inner, false);
            &&& t.len() == inner.len() + 2
            &&& t[k].body == seq!['"'] + inner.take(k) + seq!['"']
        }),
{
    reveal_strlit("\"");
    let s = crate::composite::chunks(inner, false);
    crate::composite::lemma_steps(start, duration, s, false, s.len());
    lemma_joined_chars(inner, k);
    let t = reveal_switches(start, duration, inner, false);
    assert(t[k] == steps(start, duration, s, false, s.len())[k - 1]);
    assert("\""@ =~= seq!['"']);
}

/// Step k of a reveal in n steps is over when k times its share of the duration has passed, where
/// a share is the least whole number of milliseconds that is enough for all, or at the end.
pub proof fn law_reveal_times(
    start: u32,
    duration: u32,
    inner: Seq<char>,
    by_word: bool,
    k: int,
    share: int,
)
    requires
        ({
            let n = reveal_switches(start, duration, inner, by_word).len() - 2;
            &&& 1 <= k <= n
            &&& share * n >= duration > (share - 1) * n
        }),
    ensures
        ({
            let t = reveal_switches(start, duration, inner, by_word);
            let end = capped(start + duration);
            t[k].at_ms == if start + k * share < end {
                start + k * share
            } else {
                end
            }
        }),
{
    let s = crate::composite::chunks(inner, by_word);
    let n = step_count(s);
    crate::composite::lemma_steps(start, duration, s, by_word, n);
    let t = reveal_switches(start, duration, inner, by_word);
    assert(t.len() == n + 2);
    assert(t[k] == steps(start, duration, s, by_word, n)[k - 1]);
    assert((duration + n - 1) / (n as int) == share) by (nonlinear_arith)
        requires
            share * n >= duration > (share - 1) * n,
            n > 0,
    ;
}

proof fn lemma_words(s: Seq<char>)
    ensures
        forall|i: int, j: int|
            0 <= i < words(s).len() && 0 <= j < words(s)[i].len() ==> !is_space(
                #[trigger] words(s)[i][j],
            ),
        forall|i: int| 0 <= i < words(s).len() ==> (#[trigger] words(s)[i]).len() > 0,
        words(s).flatten() == s.filter(|c: char| !is_space(c)),
        s.len() > 0 && !is_space(s.last()) ==> words(s).len() > 0,
    decreases s.len(),
{
    reveal(Seq::filter);
    let keep = |c: char| !is_space(c);
    if s.len() == 0 {
        assert(words(s).flatten() =~= s);
    } else {
        let c = s.last();
        let t = s.drop_last();
        let rest = words(t);
        lemma_words(t);
        if !is_space(c) {
            if s.len() > 1 && !is_space(s[s.len() - 2]) {
                assert(t.last() == s[s.len() - 2]);
                let front = rest.drop_last();
                let w = rest.last();
                assert(rest[rest.len() - 1] == w);
                assert forall|i: int, j: int|
                    0 <= i < words(s).len() && 0 <= j < words(s)[i].len() implies !is_space(
                    #[trigger] words(s)[i][j],
                ) by {
                    if i < front.len() {
                        assert(words(s)[i] == rest[i]);
                        assert(!is_space(rest[i][j]));
                    } else if j < w.len() {
                        assert(words(s)[i][j] == rest[rest.len() - 1][j]);
                    }
                }
                assert forall|i: int| 0 <= i < words(s).len() implies (#[trigger] words(s)[i]).len()
                    > 0 by {
                    if i < front.len() {
                        assert(words(s)[i] == rest[i]);
                    }
                }
                front.lemma_flatten_push(w);
                front.lemma_flatten_push(w.push(c));
                assert(front.push(w) =~= rest);
                assert(words(s) == front.push(w.push(c)));
                assert(front.flatten() + w.push(c) =~= (front.flatten() + w).push(c));
            } else {
                assert forall|i: int, j: int|
                    0 <= i < words(s).len() && 0 <= j < words(s)[i].len() implies !is_space(
                    #[trigger] words(s)[i][j],
                ) by {
                    if i < rest.len() {
                        assert(!is_space(rest[i][j]));
                    }
                }
                rest.lemma_flatten_push(seq![c]);
                assert(rest.flatten() + seq![c] =~= rest.flatten().push(c));
            }
        }
    }
}

/// The words of a text are what stands between its spaces: no word is empty or holds a space, and
/// together they hold every other character, in order.
pub proof fn law_words(s: Seq<char>)
    ensures
        forall|i: int| 0 <= i < words(s).len() ==> (#[trigger] words(s)[i]).len() > 0,
        forall|i: int, j: int|
            0 <= i < words(s).len() && 0 <= j < words(s)[i].len() ==> !is_space(
                #[trigger] words(s)[i][j],
            ),
        words(s).flatten() == s.filter(|c: char| !is_space(c)),
{
    lemma_words(s);
}

/// A space ends a word: what stands behind it makes up words of its own.
pub proof fn law_words_part(a: Seq<char>, b: Seq<char>)
    ensures
        words(a + seq![' '] + b) == words(a) + words(b),
    decreases b.len(),
{
    let s = a + seq![' '] + b;
    if b.len() == 0 {
        assert(s.drop_last() =~= a);
        assert(is_space(' '));
        assert(words(a) + words(b) =~= words(a));
    } else {
        law_words_part(a, b.drop_last());
        assert(s.drop_last() =~= a + seq![' '] + b.drop_last());
        let c = b.last();
        assert(s.last() == c);
        let rest = words(b.drop_last());
        assert(is_space(' '));
        if b.len() > 1 {
            assert(s[s.len() - 2] == b[b.len() - 2]);
            lemma_words(b.drop_last());
            if !is_space(c) && !is_space(b[b.len() - 2]) {
                assert(b.drop_last().last() == b[b.len() - 2]);
                assert((words(a) + rest).last() == rest.last());
                assert((words(a) + rest).drop_last() =~= words(a) + rest.drop_last());
                assert(words(s) =~= words(a) + words(b));
            } else {
                assert(words(s) =~= words(a) + words(b));
            }
        } else {
            assert(s[s.len() - 2] == ' ');
            assert(words(s) =~= words(a) + words(b));
        }
    }
}

/// A text that is revealed by words comes up one word at a time: step k shows its first k words,
/// with one space between them.
pub proof fn law_reveal_by_words(start: u32, duration: u32, inner: Seq<char>, k: int)
    requires
        1 <= k < words(inner).len(),
    ensures
        ({
            let t = reveal_switches(start, duration, inner, true);
            &&& t.len() == words(inner).len() + 2
            &&& t[1].body == seq!['"'] + words(inner)[0] + seq!['"']
            &&& t[k + 1].body == t[k].body.drop_last() + seq![' '] + words(inner)[k] + seq!['"']
        }),
{
    reveal_strlit("\"");
    assert("\""@ =~= seq!['"']);
    let s = words(inner);
    crate::composite::lemma_steps(start, duration, s, true, s.len());
    let t = reveal_switches(start, duration, inner, true);
    assert(t[k] == steps(start, duration, s, true, s.len())[k - 1]);
    assert(t[k + 1] == steps(start, duration, s, true, s.len())[k]);
    assert(t[1] == steps(start, duration, s, true, s.len())[0]);
    assert(s.take(k + 1).drop_last() =~= s.take(k));
    assert(s.take(1)[0] == s[0]);
    let a = crate::composite::joined(s.take(k), seq![' ']);
    assert(t[k].body == seq!['"'] + a + seq!['"']);
    assert(t[k].body.drop_last() =~= seq!['"'] + a);
    assert(t[k + 1].body =~= t[k].body.drop_last() + seq![' '] + words(inner)[k] + seq!['"']);
}

/// `reveal` brings a text up word by word and `typewriter` character by character, unless the call
/// says otherwise: the steps are noted behind the earlier contents of the target, for the time of
/// one slide.
#[verifier::rlimit(30)]
pub proof fn law_reveal(c: CtxView, call: NodeView, label: Seq<char>, inner: Seq<char>)
    requires
        target_label(call) == Some(label),
        c.items.contains_key(label),
        unquoted(c.items[label]) == Some(inner),
    ensures
        ({
            let by = string_value(named_value(call, "by"@));
            let start = entry_start(c, call) as u32;
            let duration = duration_arg(call, 1000);
            let before = if c.content_timeline.contains_key(label) {
                c.content_timeline[label]
            } else {
                Seq::empty()
            };
            let d = directive(c, call, "reveal"@);
            let e = directive(c, call, "typewriter"@);
            &&& slide_added(c, d, start as int, duration as int)
            &&& slide_added(c, e, start as int, duration as int)
            &&& ends_in(
                d.content_timeline[label],
                before + reveal_switches(start, duration, inner, by is None || by == Some("word"@)),
            )
            &&& ends_in(
                e.content_timeline[label],
                before + reveal_switches(start, duration, inner, by == Some("word"@)),
            )
            &&& d.items == c.items && e.items == c.items
        }),
{
    is_reveal(c, call);
    is_typewriter(c, call);
    reveal_strlit("word");
    reveal_strlit("char");
    assert("char"@[0] != "word"@[0]);
    assert(reveal_text(c, call, false).slides.drop_last() =~= c.slides);
    assert(reveal_text(c, call, true).slides.drop_last() =~= c.slides);
    let by = string_value(named_value(call, "by"@));
    let start = entry_start(c, call) as u32;
    let duration = duration_arg(call, 1000);
    let before = crate::composite::switches_of(c, label);
    let x = before + reveal_switches(start, duration, inner, by is None || by == Some("word"@));
    let y = before + reveal_switches(start, duration, inner, by == Some("word"@));
    let none = seq![SwitchView { at_ms: 0, body: "none"@ }];
    assert((none + x).skip(1) =~= x);
    assert((none + y).skip(1) =~= y);
    assert(x.skip(0) =~= x);
    assert(y.skip(0) =~= y);
    let d = reveal_text(c, call, false);
    let e = reveal_text(c, call, true);
    assert(d.content_timeline[label] == x || d.content_timeline[label] == none + x);
    assert(e.content_timeline[label] == y || e.content_timeline[label] == none + y);
    assert((none + x)[0] == none[0] && (none + y)[0] == none[0]);
}

/// Whether a timeline is the given one, with at most one switch in front that shows nothing from
/// the beginning on.
pub open spec fn ends_in(all: Seq<SwitchView>, s: Seq<SwitchView>) -> bool {
    all == s || (all.len() == s.len() + 1 && all.skip(1) == s && all[0].at_ms == 0 && all[0].body
        == "none"@)
}

/// `subtitle` puts up a caption from now on, for its duration where it has one, under a label of
/// its own, at the place that it says. The timeline goes on meanwhile.
pub proof fn law_subtitle(c: CtxView, call: NodeView, body: NodeView)
    requires
        pos_or_named(call, 0, "body"@) == Some(body),
        arg_text(body).len() > 0,
    ensures
        ({
            let d = directive(c, call, "subtitle"@);
            let s = d.subtitles.last();
            &&& d.subtitles.len() == c.subtitles.len() + 1
            &&& d.subtitles.drop_last() == c.subtitles
            &&& s.body == arg_text(body)
            &&& s.id == "__sub_"@ + decimal(c.subtitle_id as nat)
            &&& s.start_ms == c.cursor
            &&& optional_duration(call) is None ==> s.end_ms is None
            &&& optional_duration(call) matches Some(n) ==> s.end_ms == Some(
                capped(c.cursor + n) as u32,
            )
            &&& s.position == place_arg(call)
            &&& s.easing == eased(call, Easing::Linear)
            &&& c.scope_stack.len() > 0 ==> s.scope == c.scope_stack.last()
            &&& d.slides == c.slides && d.cursor == c.cursor && d.timeline_start
                == c.timeline_start
            &&& c.subtitle_id < usize::MAX ==> d.subtitle_id == c.subtitle_id + 1
        }),
{
    is_subtitle(c, call);
    assert(subtitle(c, call).subtitles.drop_last() =~= c.subtitles);
}

} // verus!
