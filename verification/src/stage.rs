//! Counters, scenes, imports and the canvas: laws on what a document sets up.

use vstd::prelude::*;
use crate::args::optional_duration;
use crate::arguments::{given, has_name, has_value, lemma_given_at, lemma_withheld_at, withheld};
use crate::context::CtxView;
use crate::counters::{
    active_kc, counter_event, easing_before, ecnew, fitted, kc_index, kc_visible, kcnew, kcpush,
    latest_before, place_after,
};
use crate::dispatch::{
    is_ecdestroy, is_ecnew, is_ecpause, is_ecresume, is_kcdestroy, is_kcnew, is_kcpause, is_kcpush,
    is_kcresume,
};
use crate::easing::Easing;
use crate::effects::eased;
use crate::expr::{
    call_items, first_expr, is_typst_ident, last_ident, length_value, named_or_pos, named_value,
    number_value, pos_or_named, string_value,
};
use crate::number::{Length, Number};
use crate::parse::{admitted, VersionPolicy};
use crate::scene::{seq_view, CounterEventKind, GlobalConfig, Keyframe, SceneInfoView};
use crate::symbols::{
    bound_symbol, candy_names, colon_place, import_seen, is_candy_name, item_names, symbol_of,
    with_all, with_items,
};
use crate::syntax::{Kind, NodeView};
use crate::text::kebab;
use crate::walk::{
    configured, dimensions, dimensions_in, directive, last_length, scene_closed, scene_index,
    scene_opened,
};

verus! {

// ---------------------------------------------------------------- counters

/// `ecnew` declares a counter in the innermost scope, from now on: it counts from its seed, 0 by
/// default, by its step, 1 by default, for its duration where it has one.
pub proof fn law_counter_declared(
    c: CtxView,
    call: NodeView,
    e: NodeView,
    name: Seq<char>,
    seed: i64,
    step: i64,
)
    requires
        pos_or_named(call, 0, "name"@) == Some(e),
        e.value == Some(name),
        is_typst_ident(name),
        !c.ecnew_names.contains((c.scope(), name)),
        number_value(named_value(call, "seed"@)) == Some(Number::Int(seed)) || (number_value(
            named_value(call, "seed"@),
        ) is None && seed == 0),
        number_value(named_value(call, "step"@)) == Some(Number::Int(step)) || (number_value(
            named_value(call, "step"@),
        ) is None && step == 1),
    ensures
        ({
            let d = directive(c, call, "ecnew"@);
            let k = d.counters.last();
            &&& d.counters.len() == c.counters.len() + 1
            &&& d.counters.drop_last() == c.counters
            &&& k.name == name && k.seed == seed && k.step == step
            &&& c.scope_stack.len() > 0 ==> k.scope == c.scope_stack.last()
            &&& k.start_ms == c.cursor
            &&& k.duration_ms == optional_duration(call)
            &&& k.easing == eased(call, Easing::Linear)
            &&& d.ecnew_names.contains((c.scope(), name))
            &&& d.slides == c.slides && d.cursor == c.cursor
        }),
{
    is_ecnew(c, call);
    let d = ecnew(c, call);
    assert(d.counters.drop_last() =~= c.counters);
    assert(d.ecnew_names[c.ecnew_names.len() as int] == (c.scope(), name));
}

/// A counter whose name is no string, or no proper name, is not declared, and the document has a
/// fault.
pub proof fn law_counter_needs_a_name(c: CtxView, call: NodeView, e: NodeView)
    requires
        pos_or_named(call, 0, "name"@) == Some(e),
        e.value matches Some(s) ==> !is_typst_ident(s),
    ensures
        directive(c, call, "ecnew"@).pending_error is Some,
        directive(c, call, "ecnew"@).counters == c.counters,
        directive(c, call, "kcnew"@).pending_error is Some,
        directive(c, call, "kcnew"@).kcdefs == c.kcdefs,
{
    is_ecnew(c, call);
    is_kcnew(c, call);
}

/// `ecpause`, `ecresume` and `ecdestroy` note just that, for the counter that they name, at the end
/// of everything so far.
pub proof fn law_counter_events(c: CtxView, call: NodeView, e: NodeView, name: Seq<char>)
    requires
        pos_or_named(call, 0, "name"@) == Some(e),
        e.value == Some(name),
        is_typst_ident(name),
    ensures
        event_noted(
            c,
            directive(c, call, "ecpause"@),
            name,
            CounterEventKind::Pause,
        ),
        event_noted(
            c,
            directive(c, call, "ecresume"@),
            name,
            CounterEventKind::Resume,
        ),
        event_noted(
            c,
            directive(c, call, "ecdestroy"@),
            name,
            CounterEventKind::Destroy,
        ),
{
    is_ecpause(c, call);
    is_ecresume(c, call);
    is_ecdestroy(c, call);
    let p = counter_event(c, call, CounterEventKind::Pause, false);
    let r = counter_event(c, call, CounterEventKind::Resume, false);
    let d = counter_event(c, call, CounterEventKind::Destroy, false);
    assert(p.counter_events.drop_last() =~= c.counter_events);
    assert(r.counter_events.drop_last() =~= c.counter_events);
    assert(d.counter_events.drop_last() =~= c.counter_events);
}

/// Whether one event of a counter was noted, and nothing else happened.
pub open spec fn event_noted(
    c: CtxView,
    d: CtxView,
    name: Seq<char>,
    kind: CounterEventKind,
) -> bool {
    &&& d == (CtxView { counter_events: d.counter_events, ..c })
    &&& d.counter_events.len() == c.counter_events.len() + 1
    &&& d.counter_events.drop_last() == c.counter_events
    &&& d.counter_events.last().name == name
    &&& d.counter_events.last().kind == kind
    &&& d.counter_events.last().at_ms == c.cursor
}

/// `kcpause`, `kcresume` and `kcdestroy` note just that where the counter was declared in a scope
/// that is still open; otherwise the document has a fault.
pub proof fn law_keyframe_counter_events(c: CtxView, call: NodeView, e: NodeView, name: Seq<char>)
    requires
        pos_or_named(call, 0, "name"@) == Some(e),
        e.value == Some(name),
        is_typst_ident(name),
    ensures
        ({
            let open = exists|i: int|
                0 <= i < c.scope_stack.len() && c.kcnew_names.contains(
                    (#[trigger] c.scope_stack[i], name),
                );
            let p = directive(c, call, "kcpause"@);
            let r = directive(c, call, "kcresume"@);
            let d = directive(c, call, "kcdestroy"@);
            &&& open ==> kc_noted(c, p, name, CounterEventKind::Pause)
            &&& open ==> kc_noted(c, r, name, CounterEventKind::Resume)
            &&& open ==> kc_noted(c, d, name, CounterEventKind::Destroy)
            &&& !open ==> p.pending_error is Some && r.pending_error is Some
                && d.pending_error is Some
            &&& !open ==> p.kc_events == c.kc_events && r.kc_events == c.kc_events && d.kc_events
                == c.kc_events
        }),
{
    is_kcpause(c, call);
    is_kcresume(c, call);
    is_kcdestroy(c, call);
    if kc_visible(c, name) {
        let p = counter_event(c, call, CounterEventKind::Pause, true);
        let r = counter_event(c, call, CounterEventKind::Resume, true);
        let d = counter_event(c, call, CounterEventKind::Destroy, true);
        assert(p.kc_events.drop_last() =~= c.kc_events);
        assert(r.kc_events.drop_last() =~= c.kc_events);
        assert(d.kc_events.drop_last() =~= c.kc_events);
    }
}

/// Whether one event of a keyframe counter was noted, and nothing else happened.
pub open spec fn kc_noted(
    c: CtxView,
    d: CtxView,
    name: Seq<char>,
    kind: CounterEventKind,
) -> bool {
    &&& d == (CtxView { kc_events: d.kc_events, ..c })
    &&& d.kc_events.len() == c.kc_events.len() + 1
    &&& d.kc_events.drop_last() == c.kc_events
    &&& d.kc_events.last().name == name
    &&& d.kc_events.last().kind == kind
    &&& d.kc_events.last().at_ms == c.cursor
}

/// `kcnew` declares a counter without keyframes in the innermost scope, from now on.
pub proof fn law_keyframe_counter_declared(
    c: CtxView,
    call: NodeView,
    e: NodeView,
    name: Seq<char>,
    seed: i64,
)
    requires
        pos_or_named(call, 0, "name"@) == Some(e),
        e.value == Some(name),
        is_typst_ident(name),
        !c.kcnew_names.contains((c.scope(), name)),
        number_value(named_value(call, "seed"@)) == Some(Number::Int(seed)) || (number_value(
            named_value(call, "seed"@),
        ) is None && seed == 0),
    ensures
        ({
            let d = directive(c, call, "kcnew"@);
            let k = d.kcdefs.last();
            &&& d.kcdefs.len() == c.kcdefs.len() + 1
            &&& d.kcdefs.drop_last() == c.kcdefs
            &&& k.name == name && k.seed == seed && k.keyframes.len() == 0
            &&& c.scope_stack.len() > 0 ==> k.scope == c.scope_stack.last()
            &&& k.start_ms == c.cursor
            &&& k.easing == eased(call, Easing::Linear)
            &&& d.kcnew_names.contains((c.scope(), name))
        }),
{
    is_kcnew(c, call);
    let d = kcnew(c, call);
    assert(d.kcdefs.drop_last() =~= c.kcdefs);
    assert(d.kcnew_names[c.kcnew_names.len() as int] == (c.scope(), name));
}

proof fn lemma_kc_index(s: Seq<crate::scene::KeyframeCounterView>, name: Seq<char>, scope: usize)
    ensures
        0 <= kc_index(s, name, scope) <= s.len(),
        kc_index(s, name, scope) < s.len() ==> s[kc_index(s, name, scope)].name == name
            && s[kc_index(s, name, scope)].scope == scope,
        forall|i: int|
            0 <= i < kc_index(s, name, scope) ==> !((#[trigger] s[i]).name == name && s[i].scope
                == scope),
    decreases s.len(),
{
    if s.len() > 0 && !(s[0].name == name && s[0].scope == scope) {
        let t = s.subrange(1, s.len() as int);
        lemma_kc_index(t, name, scope);
        assert forall|i: int| 0 <= i < kc_index(s, name, scope) implies !((#[trigger] s[i]).name
            == name && s[i].scope == scope) by {
            if i > 0 {
                assert(t[i - 1] == s[i]);
            }
        }
    }
}

/// The counter that a name stands for is one of that name in an open scope, and no scope inside
/// that one has such a counter.
pub proof fn law_innermost_counter(
    s: Seq<crate::scene::KeyframeCounterView>,
    stack: Seq<usize>,
    name: Seq<char>,
)
    ensures
        match active_kc(s, stack, name) {
            Some(i) => 0 <= i < s.len() && s[i].name == name && exists|k: int|
                0 <= k < stack.len() && #[trigger] stack[k] == s[i].scope && forall|j: int, m: int|
                    #![trigger stack[j], s[m]]
                    k < j < stack.len() && 0 <= m < s.len() ==> !(s[m].name == name && s[m].scope
                        == stack[j]),
            None => forall|j: int, m: int|
                #![trigger stack[j], s[m]]
                0 <= j < stack.len() && 0 <= m < s.len() ==> !(s[m].name == name && s[m].scope
                    == stack[j]),
        },
    decreases stack.len(),
{
    if stack.len() > 0 {
        let t = stack.drop_last();
        let i = kc_index(s, name, stack.last());
        lemma_kc_index(s, name, stack.last());
        if i < s.len() {
            assert(stack[stack.len() - 1] == s[i].scope);
        } else {
            law_innermost_counter(s, t, name);
            match active_kc(s, t, name) {
                Some(i) => {
                    let k = choose|k: int|
                        0 <= k < t.len() && #[trigger] t[k] == s[i].scope && forall|j: int, m: int|
                            #![trigger t[j], s[m]]
                            k < j < t.len() && 0 <= m < s.len() ==> !(s[m].name == name
                                && s[m].scope == t[j]);
                    assert(stack[k] == s[i].scope);
                    assert forall|j: int, m: int|
                        #![trigger stack[j], s[m]]
                        k < j < stack.len() && 0 <= m < s.len() implies !(s[m].name == name
                        && s[m].scope == stack[j]) by {
                        if j < t.len() {
                            assert(t[j] == stack[j]);
                        }
                    }
                },
                None => {
                    assert forall|j: int, m: int|
                        #![trigger stack[j], s[m]]
                        0 <= j < stack.len() && 0 <= m < s.len() implies !(s[m].name == name
                        && s[m].scope == stack[j]) by {
                        if j < t.len() {
                            assert(t[j] == stack[j]);
                        }
                    }
                },
            }
        }
    }
}

proof fn lemma_place_after(s: Seq<Keyframe>, at: u32)
    ensures
        0 <= place_after(s, at) <= s.len(),
        forall|i: int| 0 <= i < place_after(s, at) ==> (#[trigger] s[i]).at_ms <= at,
    decreases s.len(),
{
    if s.len() > 0 && s[0].at_ms <= at {
        let t = s.subrange(1, s.len() as int);
        lemma_place_after(t, at);
        assert forall|i: int| 0 <= i < place_after(s, at) implies (#[trigger] s[i]).at_ms
            <= at by {
            if i > 0 {
                assert(t[i - 1] == s[i]);
            }
        }
    }
}

/// `kcpush` gives the counter one more keyframe, with its value, at the end of everything so far
/// and its offset, where there is none at that time yet; all others stay.
#[verifier::rlimit(30)]
pub proof fn law_keyframe_pushed(
    c: CtxView,
    call: NodeView,
    e: NodeView,
    name: Seq<char>,
    value: i64,
    offset: i64,
    i: int,
)
    requires
        pos_or_named(call, 0, "name"@) == Some(e),
        e.value == Some(name),
        kc_visible(c, name),
        number_value(named_or_pos(call, "value"@, 1)) == Some(Number::Int(value)),
        number_value(named_or_pos(call, "offset"@, 2)) == Some(Number::Int(offset)) || (
        number_value(named_or_pos(call, "offset"@, 2)) is None && offset == 0),
        0 <= c.cursor + offset <= u32::MAX,
        active_kc(c.kcdefs, c.scope_stack, name) == Some(i),
        crate::counters::ascending(c.kcdefs[i].keyframes),
        forall|k: int|
            0 <= k < c.kcdefs[i].keyframes.len() ==> (#[trigger] c.kcdefs[i].keyframes[k]).at_ms
                != c.cursor + offset,
    ensures
        ({
            let d = directive(c, call, "kcpush"@);
            let s = c.kcdefs[i].keyframes;
            let t = d.kcdefs[i].keyframes;
            &&& d.kcdefs.len() == c.kcdefs.len()
            &&& t.len() == s.len() + 1
            &&& exists|k: int|
                0 <= k < t.len() && (#[trigger] t[k]).at_ms == c.cursor + offset && t[k].value
                    == value && t.remove(k) == s
            &&& crate::counters::ascending(t)
            &&& forall|j: int|
                0 <= j < c.kcdefs.len() && j != i ==> #[trigger] d.kcdefs[j] == c.kcdefs[j]
        }),
{
    is_kcpush(c, call);
    law_innermost_counter(c.kcdefs, c.scope_stack, name);
    let def = c.kcdefs[i];
    let s = def.keyframes;
    let at = (c.cursor + offset) as u32;
    assert(crate::counters::shifted(c.cursor, offset) == at);
    lemma_place_after(s, at);
    let p = place_after(s, at);
    if 0 < p {
        assert(s[p - 1].at_ms <= at);
        assert(s[p - 1].at_ms != at);
    }
    lemma_after(s, at);
    assert(fitted(s, at) == (at, false));
    let d = kcpush(c, call);
    let k = d.kcdefs[i].keyframes[p];
    crate::counters::law_keyframes_ascend(s, k);
    assert(d.kcdefs[i].keyframes == s.insert(p, k));
    assert(s.insert(p, k).remove(p) =~= s);
}

proof fn lemma_after(s: Seq<Keyframe>, at: u32)
    ensures
        place_after(s, at) < s.len() ==> s[place_after(s, at)].at_ms > at,
    decreases s.len(),
{
    if s.len() > 0 && s[0].at_ms <= at {
        let t = s.subrange(1, s.len() as int);
        lemma_after(t, at);
        lemma_place_after(t, at);
        if place_after(t, at) < t.len() {
            assert(t[place_after(t, at)] == s[place_after(t, at) + 1]);
        }
    }
}

/// A keyframe that says nothing of its easing has that of the latest one before it.
pub proof fn law_easing_inherited(s: Seq<Keyframe>, at: u32, default: Easing, k: int)
    requires
        0 <= k < s.len(),
        s[k].at_ms < at,
        crate::counters::ascending(s),
        forall|j: int| k < j < s.len() ==> (#[trigger] s[j]).at_ms >= at,
    ensures
        easing_before(s, at, default) == s[k].easing,
    decreases s.len(),
{
    lemma_latest(s, at, k);
}

proof fn lemma_latest(s: Seq<Keyframe>, at: u32, k: int)
    requires
        0 <= k < s.len(),
        s[k].at_ms < at,
        crate::counters::ascending(s),
        forall|j: int| k < j < s.len() ==> (#[trigger] s[j]).at_ms >= at,
    ensures
        latest_before(s, at) == Some(s[k]),
    decreases s.len(),
{
    let t = s.drop_last();
    assert(crate::counters::ascending(t)) by {
        assert forall|i: int, j: int| 0 <= i < j < t.len() implies (#[trigger] t[i]).at_ms < (
        #[trigger] t[j]).at_ms by {
            assert(s[i].at_ms < s[j].at_ms);
        }
    }
    if k < s.len() - 1 {
        assert(s[s.len() - 1].at_ms >= at);
        assert forall|j: int| k < j < t.len() implies (#[trigger] t[j]).at_ms >= at by {
            assert(t[j] == s[j]);
        }
        lemma_latest(t, at, k);
    } else {
        lemma_latest_is_one(t, at);
        if let Some(b) = latest_before(t, at) {
            let i = choose|i: int| 0 <= i < t.len() && #[trigger] t[i] == b;
            assert(s[i].at_ms < s[k].at_ms);
        }
    }
}

proof fn lemma_latest_is_one(s: Seq<Keyframe>, at: u32)
    ensures
        latest_before(s, at) matches Some(b) ==> exists|i: int|
            0 <= i < s.len() && #[trigger] s[i] == b,
    decreases s.len(),
{
    if s.len() > 0 {
        lemma_latest_is_one(s.drop_last(), at);
        assert(s[s.len() - 1] == s.last());
        if let Some(b) = latest_before(s.drop_last(), at) {
            let i = choose|i: int|
                0 <= i < s.drop_last().len() && #[trigger] s.drop_last()[i] == b;
            assert(s[i] == b);
        }
    }
}

// ---------------------------------------------------------------- canvas

proof fn lemma_last_length(s: Seq<NodeView>, name: Seq<char>, i: int, e: NodeView, l: Length)
    requires
        name.len() > 0,
        0 <= i < s.len(),
        has_name(s[i], name),
        has_value(s[i], e),
        length_value(e) == Some(l),
        forall|j: int| i < j < s.len() ==> !has_name(#[trigger] s[j], name),
    ensures
        last_length(s, name) == Some(l),
    decreases s.len(),
{
    crate::arguments::lemma_name(s.last(), name);
    if i < s.len() - 1 {
        assert(!has_name(s[s.len() - 1], name));
        lemma_last_length(s.drop_last(), name, i, e, l);
    } else {
        crate::arguments::lemma_value(s[i], e);
    }
}

proof fn lemma_no_length(s: Seq<NodeView>, name: Seq<char>)
    requires
        name.len() > 0,
        forall|j: int| 0 <= j < s.len() ==> !has_name(#[trigger] s[j], name),
    ensures
        last_length(s, name) is None,
    decreases s.len(),
{
    if s.len() > 0 {
        crate::arguments::lemma_name(s.last(), name);
        assert(!has_name(s[s.len() - 1], name));
        lemma_no_length(s.drop_last(), name);
    }
}

/// The show rule sets the canvas: its width and its height are the lengths that it gives under
/// those names, and stay as they are where it gives none.
pub proof fn law_canvas_size(config: GlobalConfig, rule: NodeView, e: NodeView, l: Length)
    requires
        rule.kind == Kind::FuncCall,
        length_value(e) == Some(l),
    ensures
        given(rule, "width"@, e) ==> configured(config, rule).width == l,
        given(rule, "height"@, e) ==> configured(config, rule).height == l,
        withheld(rule, "width"@) ==> configured(config, rule).width == config.width,
        withheld(rule, "height"@) ==> configured(config, rule).height == config.height,
{
    reveal_strlit("width");
    reveal_strlit("height");
    lemma_canvas_side(rule, "width"@, e, l);
    lemma_canvas_side(rule, "height"@, e, l);
}

proof fn lemma_canvas_side(rule: NodeView, name: Seq<char>, e: NodeView, l: Length)
    requires
        name.len() > 0,
        length_value(e) == Some(l),
    ensures
        given(rule, name, e) ==> last_length(call_items(rule), name) == Some(l),
        withheld(rule, name) ==> last_length(call_items(rule), name) is None,
{
    if given(rule, name, e) {
        let i = lemma_given_at(rule, name, e);
        lemma_last_length(call_items(rule), name, i, e, l);
    }
    if withheld(rule, name) {
        lemma_withheld_at(rule, name);
        lemma_no_length(call_items(rule), name);
    }
}

/// The show rule sets the resolution and the frame rate: whole numbers under their names.
pub proof fn law_canvas_rate(config: GlobalConfig, rule: NodeView, e: NodeView, n: i64)
    requires
        rule.kind == Kind::FuncCall,
        number_value(Some(e)) == Some(Number::Int(n)),
        0 <= n <= u32::MAX,
    ensures
        given(rule, "ppi"@, e) ==> configured(config, rule).ppi == n,
        given(rule, "fps"@, e) ==> configured(config, rule).fps == n,
        withheld(rule, "ppi"@) ==> configured(config, rule).ppi == config.ppi,
        withheld(rule, "fps"@) ==> configured(config, rule).fps == config.fps,
{
    reveal_strlit("ppi");
    reveal_strlit("fps");
    crate::arguments::law_number(rule, "ppi"@, e, 0);
    crate::arguments::law_number(rule, "fps"@, e, 0);
}

proof fn lemma_leaves(s: Seq<NodeView>, d: (Option<Length>, Option<Length>))
    requires
        forall|j: int|
            0 <= j < s.len() ==> (#[trigger] s[j]).kind != Kind::Named && s[j].children.len() == 0,
    ensures
        dimensions_in(s, d) == d,
    decreases s.len(),
{
    if s.len() > 0 {
        assert(s[s.len() - 1] == s.last());
        assert forall|j: int| 0 <= j < s.drop_last().len() implies (
        #[trigger] s.drop_last()[j]).kind != Kind::Named && s.drop_last()[j].children.len()
            == 0 by {
            assert(s.drop_last()[j] == s[j]);
        }
        lemma_leaves(s.drop_last(), d);
        reveal_with_fuel(dimensions, 2);
        reveal_with_fuel(dimensions_in, 3);
        assert(dimensions_in(s.last().children, d) == d);
        assert(dimensions(s.last(), d) == d);
    }
}

/// The page has the width and the height that a rule gives under those names; of several, the last
/// one counts.
pub proof fn law_page_side(
    before: Seq<NodeView>,
    n: NodeView,
    e: NodeView,
    l: Length,
    d: (Option<Length>, Option<Length>),
)
    requires
        n.kind == Kind::Named,
        forall|j: int|
            0 <= j < n.children.len() ==> (#[trigger] n.children[j]).kind != Kind::Named
                && n.children[j].children.len() == 0,
        has_value(n, e),
        length_value(e) == Some(l),
    ensures
        ({
            let old = dimensions_in(before, d);
            let new = dimensions_in(before.push(n), d);
            &&& has_name(n, "width"@) ==> new.0 == Some(l) && new.1 == old.1
            &&& has_name(n, "height"@) ==> new.0 == old.0 && new.1 == Some(l)
        }),
{
    reveal_strlit("width");
    reveal_strlit("height");
    crate::arguments::lemma_value(n, e);
    crate::arguments::lemma_name(n, "width"@);
    crate::arguments::lemma_name(n, "height"@);
    assert(before.push(n).drop_last() =~= before);
    let old = dimensions_in(before, d);
    lemma_leaves(n.children, (Some(l), old.1));
    lemma_leaves(n.children, (old.0, Some(l)));
    assert("width"@.len() != "height"@.len());
    reveal_with_fuel(dimensions, 2);
    reveal_with_fuel(dimensions_in, 2);
    assert(dimensions_in(before.push(n), d) == dimensions(n, old));
}

// ---------------------------------------------------------------- scenes

pub proof fn lemma_scene_found(s: Seq<SceneInfoView>, id: usize, i: int)
    requires
        0 <= i < s.len(),
        s[i].id == id,
        forall|j: int| 0 <= j < i ==> (#[trigger] s[j]).id != id,
    ensures
        scene_index(s, id) == i,
    decreases s.len(),
{
    if i > 0 {
        assert(s[0].id != id);
        let t = s.subrange(1, s.len() as int);
        assert forall|j: int| 0 <= j < i - 1 implies (#[trigger] t[j]).id != id by {
            assert(t[j] == s[j + 1]);
        }
        lemma_scene_found(t, id, i - 1);
    }
}

/// A scene starts at the end of everything so far, under the name that it is given, and ends where
/// what stands in it ends; labels that are declared meanwhile belong to it.
#[verifier::rlimit(30)]
pub proof fn law_scene_spans(c: CtxView, call: NodeView, inside: CtxView)
    requires
        c.scene_stack.len() == 0,
        scene_opened(c, call) is Ok,
        ({
            let d = scene_opened(c, call)->Ok_0;
            inside.scenes == d.scenes && inside.scene_stack == d.scene_stack
        }),
        forall|j: int| 0 <= j < c.scenes.len() ==> (#[trigger] c.scenes[j]).id != c.next_scene_id,
    ensures
        ({
            let d = scene_opened(c, call)->Ok_0;
            let n = c.scenes.len() as int;
            let after = scene_closed(inside, c.next_scene_id);
            &&& d.scenes.len() == n + 1
            &&& d.scenes[n].id == c.next_scene_id && d.scenes[n].start_ms == c.cursor
            &&& d.scenes[n].name == string_value(named_value(call, "name"@))
            &&& d.current_scene == c.next_scene_id
            &&& after.scenes.len() == n + 1
            &&& after.scenes[n].id == c.next_scene_id
            &&& after.scenes[n].start_ms == c.cursor && after.scenes[n].end_ms == inside.cursor
            &&& after.scenes[n].name == d.scenes[n].name
            &&& forall|j: int| 0 <= j < n ==> #[trigger] after.scenes[j] == c.scenes[j]
            &&& after.scene_stack == c.scene_stack
            &&& after.current_scene == 0
        }),
{
    let d = scene_opened(c, call)->Ok_0;
    let n = c.scenes.len() as int;
    assert forall|j: int| 0 <= j < n implies (#[trigger] d.scenes[j]).id != c.next_scene_id by {
        assert(d.scenes[j] == c.scenes[j]);
    }
    lemma_scene_found(d.scenes, c.next_scene_id, n);
    let after = scene_closed(inside, c.next_scene_id);
    assert(after.scene_stack =~= c.scene_stack);
    assert forall|j: int| 0 <= j < n implies #[trigger] after.scenes[j] == c.scenes[j] by {
        assert(d.scenes[j] == c.scenes[j]);
    }
}

// ---------------------------------------------------------------- imports

proof fn lemma_colon(s: Seq<char>, k: int)
    requires
        0 <= k < s.len(),
        s[k] == ':',
        forall|j: int| 0 <= j < k ==> #[trigger] s[j] != ':',
    ensures
        colon_place(s) == k,
    decreases s.len(),
{
    if k > 0 {
        assert(s[0] != ':');
        let t = s.subrange(1, s.len() as int);
        assert forall|j: int| 0 <= j < k - 1 implies #[trigger] t[j] != ':' by {
            assert(t[j] == s[j + 1]);
        }
        lemma_colon(t, k - 1);
    }
}

/// An import of `@namespace/candy:version` is one of the package, in that version.
pub proof fn law_package_import(
    c: CtxView,
    namespace: Seq<char>,
    version: Seq<char>,
    at: crate::scene::Span,
)
    requires
        forall|j: int| 0 <= j < namespace.len() ==> #[trigger] namespace[j] != ':',
    ensures
        ({
            let src = seq!['@'] + namespace + "/candy"@ + seq![':'] + version;
            let d = import_seen(c, src, at);
            &&& d.candy_imported
            &&& d.candy_import_version == Some(version)
            &&& d.candy_import_loc == Some(at)
            &&& d.file_style_candy_import == c.file_style_candy_import
        }),
{
    reveal_strlit("/candy");
    let front = seq!['@'] + namespace + "/candy"@;
    let src = front + seq![':'] + version;
    let k = front.len() as int;
    assert forall|j: int| 0 <= j < k implies #[trigger] src[j] != ':' by {
        if j == 0 {
        } else if j < 1 + namespace.len() {
            assert(src[j] == namespace[j - 1]);
        } else {
            assert(src[j] == "/candy"@[j - 1 - namespace.len()]);
        }
    }
    lemma_colon(src, k);
    assert(src.take(k) =~= front);
    assert(front.subrange(front.len() - 6, front.len() as int) =~= "/candy"@);
    assert(src.subrange(k + 1, src.len() as int) =~= version);
}

/// Whether a document is refused, with a reason.
pub open spec fn turned_away(c: CtxView, policy: VersionPolicy) -> bool {
    admitted(c, policy) matches Err(Ok(_))
}

/// A document is admitted only with an import of candy and its show rule; an import of a file, or a
/// version that was judged not to fit, is refused unless versions are ignored.
pub proof fn law_admitted(c: CtxView, policy: VersionPolicy)
    ensures
        !c.candy_imported && !c.file_style_candy_import ==> turned_away(c, policy),
        !c.candy_show_rule_seen ==> turned_away(c, policy),
        !policy.ignore && c.file_style_candy_import ==> turned_away(c, policy),
        (c.candy_imported || c.file_style_candy_import) && c.candy_show_rule_seen && policy.ignore
            ==> admitted(c, policy) is Ok,
        c.candy_imported && !c.file_style_candy_import && c.candy_show_rule_seen && !policy.ignore
            ==> (c.candy_import_version matches Some(v) ==> {
            let s = seq_view(policy.verdicts@);
            &&& s.len() > 0 && s[s.len() - 1] == (v, true) ==> admitted(c, policy) is Ok
            &&& s.len() > 0 && s[s.len() - 1] == (v, false) ==> turned_away(c, policy)
            &&& (forall|i: int| 0 <= i < s.len() ==> (#[trigger] s[i]).0 != v) ==> admitted(
                c,
                policy,
            ) == Err::<(), Result<crate::diag::FaultView, Seq<char>>>(Err(v))
        }),
{
    if let Some(v) = c.candy_import_version {
        lemma_judged(seq_view(policy.verdicts@), v);
    }
}

proof fn lemma_judged(s: Seq<(Seq<char>, bool)>, v: Seq<char>)
    ensures
        (forall|i: int| 0 <= i < s.len() ==> (#[trigger] s[i]).0 != v) ==> crate::parse::judged(
            s,
            v,
        ) is None,
    decreases s.len(),
{
    if s.len() > 0 && forall|i: int| 0 <= i < s.len() ==> (#[trigger] s[i]).0 != v {
        assert(s[s.len() - 1].0 != v);
        lemma_judged(s.drop_last(), v);
    }
}

proof fn lemma_with_all(map: Map<Seq<char>, Seq<char>>, names: Seq<Seq<char>>, name: Seq<char>)
    ensures
        ({
            let m = with_all(map, names);
            &&& map.contains_key(name) ==> m.contains_key(name) && m[name] == map[name]
            &&& !map.contains_key(name) && names.contains(name) ==> m.contains_key(name) && m[name]
                == name
            &&& !map.contains_key(name) && !names.contains(name) ==> !m.contains_key(name)
        }),
    decreases names.len(),
{
    if names.len() > 0 {
        let t = names.drop_last();
        lemma_with_all(map, t, name);
        lemma_with_all(map, t, names.last());
        assert(names[names.len() - 1] == names.last());
        if t.contains(name) {
            let i = choose|i: int| 0 <= i < t.len() && t[i] == name;
            assert(names[i] == name);
        }
        if names.contains(name) && name != names.last() {
            let i = choose|i: int| 0 <= i < names.len() && names[i] == name;
            assert(t[i] == name);
        }
    }
}

/// An import of everything binds each name of candy that is free to itself, and nothing else.
pub proof fn law_wildcard_import(map: Map<Seq<char>, Seq<char>>, name: Seq<char>)
    ensures
        ({
            let m = with_all(map, candy_names());
            &&& map.contains_key(name) ==> m.contains_key(name) && m[name] == map[name]
            &&& !map.contains_key(name) && is_candy_name(name) ==> m.contains_key(name) && m[name]
                == name
            &&& !map.contains_key(name) && !is_candy_name(name) ==> !m.contains_key(name)
        }),
{
    lemma_with_all(map, candy_names(), name);
}

/// An import of a list binds the last of its items under its new name, or under its own: a call of
/// that name is then a call of the item.
pub proof fn law_item_import(map: Map<Seq<char>, Seq<char>>, s: Seq<NodeView>, n: NodeView)
    requires
        n.kind == Kind::ImportItemPath || n.kind == Kind::RenamedImportItem,
    ensures
        ({
            let m = with_items(map, s.push(n));
            let (item, name) = item_names(n)->0;
            &&& bound_symbol(m, name) == Some(kebab(item))
            &&& n.kind == Kind::ImportItemPath ==> item == name
        }),
{
    assert(s.push(n).drop_last() =~= s);
    let (item, name) = item_names(n)->0;
    let m = with_items(map, s.push(n));
    assert(m.contains_key(kebab(name)) && m[kebab(name)] == kebab(item));
}

/// A call by a bare name is a directive where the name is bound to one, and a call of a field is
/// one where the module of candy is in front of it; everything else is an ordinary call.
pub proof fn law_directive_called(c: CtxView, call: NodeView, callee: NodeView)
    requires
        first_expr(call.children) == Some(callee),
    ensures
        callee.kind == Kind::Ident ==> (bound_symbol(c.symbol_map, callee.text) is None
            ==> symbol_of(c, call) is None),
        callee.kind == Kind::Ident ==> (bound_symbol(c.symbol_map, callee.text) matches Some(s)
            ==> (is_candy_name(s) ==> symbol_of(c, call) == Some(s)) && (!is_candy_name(s)
            ==> symbol_of(c, call) is None)),
        callee.kind == Kind::FieldAccess ==> (first_expr(callee.children) matches Some(t) ==> {
            let module = t.kind == Kind::Ident && c.candy_aliases.contains(t.text);
            let field = kebab(last_ident(callee.children));
            &&& !module ==> symbol_of(c, call) is None
            &&& module && is_candy_name(field) ==> symbol_of(c, call) == Some(field)
        }),
        callee.kind != Kind::Ident && callee.kind != Kind::FieldAccess ==> symbol_of(
            c,
            call,
        ) is None,
{
}

} // verus!
