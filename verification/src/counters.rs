//! Easing counters and keyframe counters.

use vstd::prelude::*;
use vstd::string::*;
use crate::args::{
    easing_step, key_arg, key_step, optional_duration, parse_optional_duration, resolve_easing,
    span, span_of,
};
use crate::context::{is_declared, CtxView, ParseCtx, ScopedName};
use crate::diag::{CandyWarn, Fault, FaultView, WarnView};
use crate::easing::{easing_named, Easing};
use crate::expr::{
    expr_to_f64, find_named_or_pos, find_named_value, find_pos_or_named, named_or_pos, named_value,
    number_value, opt_node, pos_or_named, read_string, string_value,
};
use crate::number::{number_to_i64, rounded};
use crate::scene::{
    lemma_seq_view_push, seq_view, CounterDef, CounterDefView, CounterEvent, CounterEventKind,
    CounterEventView, Keyframe, KeyframeCounterDef, KeyframeCounterView,
};
use crate::syntax::{Node, NodeView};
use crate::text::{
    chars_of, decimal, join2, join3, lower, same, string_of, to_decimal, to_lower, trim_chars,
    trimmed,
};

verus! {

broadcast use lemma_seq_view_push;

/// Replacing in a list replaces in its values.
proof fn lemma_seq_view_update<T: View>(s: Seq<T>, i: int, x: T)
    requires
        0 <= i < s.len(),
    ensures
        seq_view(s.update(i, x)) == seq_view(s).update(i, x@),
{
    assert(seq_view(s.update(i, x)) =~= seq_view(s).update(i, x@));
}

/// The whole number that an expression stands for; another one in its place.
pub open spec fn whole_or(e: Option<NodeView>, default: i64) -> i64 {
    match number_value(e) {
        Some(n) => rounded(n),
        None => default,
    }
}

fn read_whole_or(e: Option<&Node>, default: i64) -> (r: i64)
    ensures
        r == whole_or(opt_node(e), default),
{
    match expr_to_f64(e) {
        Some(n) => number_to_i64(n),
        None => default,
    }
}

// ---------------------------------------------------------------- easing counters

/// The place of the first counter with a name in a scope; the length where there is none.
pub open spec fn counter_index(s: Seq<CounterDefView>, name: Seq<char>, scope: usize) -> int
    decreases s.len(),
{
    if s.len() == 0 {
        0
    } else if s[0].name == name && s[0].scope == scope {
        0
    } else {
        1 + counter_index(s.subrange(1, s.len() as int), name, scope)
    }
}

fn find_counter(v: &Vec<CounterDef>, name: &str, scope: usize) -> (r: usize)
    ensures
        r as int == counter_index(seq_view(v@), name@, scope),
        r <= v@.len(),
{
    let ghost s = seq_view(v@);
    let mut i: usize = 0;
    assert(s.subrange(0, s.len() as int) =~= s);
    while i < v.len()
        invariant
            i <= v.len(),
            s == seq_view(v@),
            counter_index(s, name@, scope) == i + counter_index(
                s.subrange(i as int, s.len() as int),
                name@,
                scope,
            ),
        decreases v.len() - i,
    {
        let ghost here = s.subrange(i as int, s.len() as int);
        assert(here.subrange(1, here.len() as int) =~= s.subrange(i + 1, s.len() as int));
        assert(here[0] == v@[i as int]@);
        if v[i].scope == scope && same(v[i].name.as_str(), name) {
            return i;
        }
        i += 1;
    }
    assert(s.subrange(s.len() as int, s.len() as int).len() == 0);
    i
}

/// The counters with a definition in the place of the one with the same name and scope, or
/// behind all others.
pub open spec fn with_counter(s: Seq<CounterDefView>, d: CounterDefView) -> Seq<CounterDefView> {
    let i = counter_index(s, d.name, d.scope);
    if 0 <= i < s.len() {
        s.update(i, d)
    } else {
        s.push(d)
    }
}

/// `ecnew(name, seed:, step:, duration:, easing:)`: a counter that runs by itself. Declared
/// again in the same scope, it takes the place of the earlier one, with a warning.
pub open spec fn ecnew(c: CtxView, call: NodeView) -> CtxView {
    let (c1, key) = key_step(
        c,
        call,
        pos_or_named(call, 0, "name"@),
        "easing-counter name"@,
        true,
    );
    match key {
        None => c1,
        Some(name) => {
            let label = "counter:"@ + name;
            let (c2, easing) = easing_step(c1, call, label, Easing::Linear);
            let c3 = CtxView { label_locs: c2.label_locs.insert(label, span(call)), ..c2 };
            let def = CounterDefView {
                name,
                scope: c3.scope(),
                seed: whole_or(named_value(call, "seed"@), 0),
                step: whole_or(named_value(call, "step"@), 1),
                duration_ms: optional_duration(call),
                easing,
                start_ms: c3.cursor,
            };
            if c3.ecnew_names.contains((c3.scope(), name)) {
                let c4 = c3.warned(WarnView::DuplicateName("ecnew"@, name, span(call)));
                CtxView { counters: with_counter(c4.counters, def), ..c4 }
            } else {
                CtxView {
                    ecnew_names: c3.ecnew_names.push((c3.scope(), name)),
                    counters: c3.counters.push(def),
                    ..c3
                }
            }
        },
    }
}

/// `ecnew(name, seed:, step:, duration:, easing:)`.
pub fn process_ecnew(call: &Node, ctx: &mut ParseCtx)
    ensures
        final(ctx)@ == ecnew(old(ctx)@, call@),
{
    let key = key_arg(call, find_pos_or_named(call, 0, "name"), "easing-counter name", true, ctx);
    let name = match key {
        Some(name) => name,
        None => {
            return;
        },
    };
    let label = join2("counter:", name.as_str());
    let easing = resolve_easing(call, label.as_str(), Easing::Linear, ctx);
    let at = span_of(call);
    ctx.label_locs.insert(label, at);
    let scope: usize = ctx.current_scope();
    let def = CounterDef {
        name: name.clone(),
        scope,
        seed: read_whole_or(find_named_value(call, "seed"), 0),
        step: read_whole_or(find_named_value(call, "step"), 1),
        duration_ms: parse_optional_duration(call),
        easing,
        start_ms: ctx.cursor,
    };
    if is_declared(&ctx.ecnew_names, scope, name.as_str()) {
        ctx.warn(CandyWarn::DuplicateName("ecnew".to_owned(), name.clone(), at));
        let i: usize = find_counter(&ctx.counters, name.as_str(), scope);
        if i < ctx.counters.len() {
            proof {
                lemma_seq_view_update(ctx.counters@, i as int, def);
            }
            ctx.counters[i] = def;
        } else {
            ctx.counters.push(def);
        }
    } else {
        ctx.ecnew_names.push(ScopedName { scope, name });
        ctx.counters.push(def);
    }
}

// ---------------------------------------------------------------- keyframe counters

/// Whether a keyframe counter is declared in an open scope.
pub open spec fn kc_visible(c: CtxView, name: Seq<char>) -> bool {
    exists|i: int|
        0 <= i < c.scope_stack.len() && c.kcnew_names.contains(
            (#[trigger] c.scope_stack[i], name),
        )
}

fn kc_name_visible(ctx: &ParseCtx, name: &str) -> (r: bool)
    ensures
        r == kc_visible(ctx@, name@),
{
    let mut i: usize = ctx.scope_stack.len();
    while i > 0
        invariant
            i <= ctx.scope_stack@.len(),
            forall|j: int|
                i <= j < ctx.scope_stack@.len() ==> !seq_view(ctx.kcnew_names@).contains(
                    (#[trigger] ctx.scope_stack@[j], name@),
                ),
        decreases i,
    {
        if is_declared(&ctx.kcnew_names, ctx.scope_stack[i - 1], name) {
            assert(ctx@.kcnew_names.contains((ctx@.scope_stack[i - 1], name@)));
            return true;
        }
        i -= 1;
    }
    false
}

/// The place of the first keyframe counter with a name in a scope; the length where there is
/// none.
pub open spec fn kc_index(s: Seq<KeyframeCounterView>, name: Seq<char>, scope: usize) -> int
    decreases s.len(),
{
    if s.len() == 0 {
        0
    } else if s[0].name == name && s[0].scope == scope {
        0
    } else {
        1 + kc_index(s.subrange(1, s.len() as int), name, scope)
    }
}

fn find_kc(v: &Vec<KeyframeCounterDef>, name: &str, scope: usize) -> (r: usize)
    ensures
        r as int == kc_index(seq_view(v@), name@, scope),
        r <= v@.len(),
{
    let ghost s = seq_view(v@);
    let mut i: usize = 0;
    assert(s.subrange(0, s.len() as int) =~= s);
    while i < v.len()
        invariant
            i <= v.len(),
            s == seq_view(v@),
            kc_index(s, name@, scope) == i + kc_index(
                s.subrange(i as int, s.len() as int),
                name@,
                scope,
            ),
        decreases v.len() - i,
    {
        let ghost here = s.subrange(i as int, s.len() as int);
        assert(here.subrange(1, here.len() as int) =~= s.subrange(i + 1, s.len() as int));
        assert(here[0] == v@[i as int]@);
        if v[i].scope == scope && same(v[i].name.as_str(), name) {
            return i;
        }
        i += 1;
    }
    assert(s.subrange(s.len() as int, s.len() as int).len() == 0);
    i
}

/// The place of the keyframe counter that a name means: that of the innermost scope of `stack`
/// that has one.
pub open spec fn active_kc(
    s: Seq<KeyframeCounterView>,
    stack: Seq<usize>,
    name: Seq<char>,
) -> Option<int>
    decreases stack.len(),
{
    if stack.len() == 0 {
        None
    } else {
        let i = kc_index(s, name, stack.last());
        if 0 <= i < s.len() {
            Some(i)
        } else {
            active_kc(s, stack.drop_last(), name)
        }
    }
}

fn active_kcdef_index(ctx: &ParseCtx, name: &str) -> (r: Option<usize>)
    ensures
        match r {
            Some(i) => active_kc(ctx@.kcdefs, ctx@.scope_stack, name@) == Some(i as int) && i
                < ctx.kcdefs@.len(),
            None => active_kc(ctx@.kcdefs, ctx@.scope_stack, name@) is None,
        },
{
    let ghost s = ctx@.kcdefs;
    let ghost stack = ctx@.scope_stack;
    let mut i: usize = ctx.scope_stack.len();
    assert(stack.take(stack.len() as int) =~= stack);
    while i > 0
        invariant
            i <= ctx.scope_stack@.len(),
            s == ctx@.kcdefs,
            stack == ctx@.scope_stack,
            active_kc(s, stack, name@) == active_kc(s, stack.take(i as int), name@),
        decreases i,
    {
        assert(stack.take(i as int).drop_last() =~= stack.take(i - 1));
        let k: usize = find_kc(&ctx.kcdefs, name, ctx.scope_stack[i - 1]);
        if k < ctx.kcdefs.len() {
            return Some(k);
        }
        i -= 1;
    }
    None
}

/// What a counter event names a counter of.
pub open spec fn counter_noun(kc: bool) -> Seq<char> {
    if kc {
        "keyframe-counter name"@
    } else {
        "easing-counter name"@
    }
}

/// A location that was recorded for a name.
pub open spec fn ref_loc(c: CtxView, name: Seq<char>) -> Option<crate::scene::Span> {
    if c.name_ref_locs.contains_key(name) {
        Some(c.name_ref_locs[name])
    } else {
        None
    }
}

fn read_ref_loc(ctx: &ParseCtx, name: &str) -> (r: Option<crate::scene::Span>)
    ensures
        r == ref_loc(ctx@, name@),
{
    match ctx.name_ref_locs.get(name) {
        Some(s) => Some(*s),
        None => None,
    }
}

/// The fault of an operation on a keyframe counter that is not visible.
pub open spec fn kc_unknown(c: CtxView, name: Seq<char>) -> FaultView {
    FaultView::UnknownKey { what: "kcnew"@, name, at: ref_loc(c, name) }
}

/// `ecpause`, `ecresume`, `ecdestroy` and their `kc` counterparts: something happens to a
/// counter now. A keyframe counter must be visible.
pub open spec fn counter_event(
    c: CtxView,
    call: NodeView,
    kind: CounterEventKind,
    kc: bool,
) -> CtxView {
    let (c1, key) = key_step(c, call, pos_or_named(call, 0, "name"@), counter_noun(kc), true);
    match key {
        None => c1,
        Some(name) => {
            let event = CounterEventView { name, kind, at_ms: c1.cursor };
            if !kc {
                CtxView { counter_events: c1.counter_events.push(event), ..c1 }
            } else if kc_visible(c1, name) {
                CtxView { kc_events: c1.kc_events.push(event), ..c1 }
            } else {
                c1.failed(kc_unknown(c1, name))
            }
        },
    }
}

/// `ecpause`, `ecresume`, `ecdestroy` and their `kc` counterparts.
pub fn process_counter_event(call: &Node, ctx: &mut ParseCtx, kind: CounterEventKind, kc: bool)
    ensures
        final(ctx)@ == counter_event(old(ctx)@, call@, kind, kc),
{
    let noun = if kc {
        "keyframe-counter name"
    } else {
        "easing-counter name"
    };
    let name = match key_arg(call, find_pos_or_named(call, 0, "name"), noun, true, ctx) {
        Some(name) => name,
        None => {
            return;
        },
    };
    let at_ms: u32 = ctx.cursor;
    if kc {
        if !kc_name_visible(ctx, name.as_str()) {
            let at = read_ref_loc(ctx, name.as_str());
            ctx.fail(Fault::UnknownKey { what: "kcnew".to_owned(), name, at });
            return;
        }
        ctx.kc_events.push(CounterEvent { name, kind, at_ms });
    } else {
        ctx.counter_events.push(CounterEvent { name, kind, at_ms });
    }
}

/// The keyframe counters with a definition in the place of the one with the same name and scope,
/// or behind all others.
pub open spec fn with_kc(
    s: Seq<KeyframeCounterView>,
    d: KeyframeCounterView,
) -> Seq<KeyframeCounterView> {
    let i = kc_index(s, d.name, d.scope);
    if 0 <= i < s.len() {
        s.update(i, d)
    } else {
        s.push(d)
    }
}

/// `kcnew(name, seed:, easing:)`: a counter that runs through keyframes.
pub open spec fn kcnew(c: CtxView, call: NodeView) -> CtxView {
    let (c1, key) = key_step(
        c,
        call,
        pos_or_named(call, 0, "name"@),
        "keyframe-counter name"@,
        true,
    );
    match key {
        None => c1,
        Some(name) => {
            let label = "kc:"@ + name;
            let (c2, easing) = easing_step(c1, call, label, Easing::Linear);
            let c3 = CtxView { label_locs: c2.label_locs.insert(label, span(call)), ..c2 };
            let def = KeyframeCounterView {
                name,
                scope: c3.scope(),
                seed: whole_or(named_value(call, "seed"@), 0),
                easing,
                start_ms: c3.cursor,
                keyframes: Seq::empty(),
            };
            if c3.kcnew_names.contains((c3.scope(), name)) {
                let c4 = c3.warned(WarnView::DuplicateName("kcnew"@, name, span(call)));
                CtxView { kcdefs: with_kc(c4.kcdefs, def), ..c4 }
            } else {
                CtxView {
                    kcnew_names: c3.kcnew_names.push((c3.scope(), name)),
                    kcdefs: c3.kcdefs.push(def),
                    ..c3
                }
            }
        },
    }
}

/// `kcnew(name, seed:, easing:)`.
pub fn process_kcnew(call: &Node, ctx: &mut ParseCtx)
    ensures
        final(ctx)@ == kcnew(old(ctx)@, call@),
{
    let key = key_arg(call, find_pos_or_named(call, 0, "name"), "keyframe-counter name", true, ctx);
    let name = match key {
        Some(name) => name,
        None => {
            return;
        },
    };
    let label = join2("kc:", name.as_str());
    let easing = resolve_easing(call, label.as_str(), Easing::Linear, ctx);
    let at = span_of(call);
    ctx.label_locs.insert(label, at);
    let scope: usize = ctx.current_scope();
    let def = KeyframeCounterDef {
        name: name.clone(),
        scope,
        seed: read_whole_or(find_named_value(call, "seed"), 0),
        easing,
        start_ms: ctx.cursor,
        keyframes: Vec::new(),
    };
    if is_declared(&ctx.kcnew_names, scope, name.as_str()) {
        ctx.warn(CandyWarn::DuplicateName("kcnew".to_owned(), name.clone(), at));
        let i: usize = find_kc(&ctx.kcdefs, name.as_str(), scope);
        if i < ctx.kcdefs.len() {
            proof {
                lemma_seq_view_update(ctx.kcdefs@, i as int, def);
            }
            ctx.kcdefs[i] = def;
        } else {
            ctx.kcdefs.push(def);
        }
    } else {
        ctx.kcnew_names.push(ScopedName { scope, name });
        ctx.kcdefs.push(def);
    }
}

// ---------------------------------------------------------------- keyframes

/// The curve of the last keyframe before `at`; `default` where there is none.
pub open spec fn easing_before(s: Seq<Keyframe>, at: u32, default: Easing) -> Easing {
    match latest_before(s, at) {
        Some(k) => k.easing,
        None => default,
    }
}

/// The last keyframe before `at`.
pub open spec fn latest_before(s: Seq<Keyframe>, at: u32) -> Option<Keyframe>
    decreases s.len(),
{
    if s.len() == 0 {
        None
    } else {
        let best = latest_before(s.drop_last(), at);
        let k = s.last();
        if k.at_ms < at && (best matches Some(b) ==> b.at_ms <= k.at_ms) {
            Some(k)
        } else {
            best
        }
    }
}

/// The place of the first keyframe after `at`; the length where there is none.
pub open spec fn place_after(s: Seq<Keyframe>, at: u32) -> int
    decreases s.len(),
{
    if s.len() == 0 {
        0
    } else if s[0].at_ms > at {
        0
    } else {
        1 + place_after(s.subrange(1, s.len() as int), at)
    }
}

/// Where a keyframe that is meant for `at` goes, and whether it had to move: right behind a
/// neighbour that is not before it, and right in front of one that is not after it.
pub open spec fn fitted(s: Seq<Keyframe>, at: u32) -> (u32, bool) {
    let i = place_after(s, at);
    let (a, moved) = if 0 < i <= s.len() && at <= s[i - 1].at_ms {
        (crate::context::later(s[i - 1].at_ms, 1), true)
    } else {
        (at, false)
    };
    if 0 <= i < s.len() && a >= s[i].at_ms {
        (
            if s[i].at_ms == 0 {
                0
            } else {
                (s[i].at_ms - 1) as u32
            },
            true,
        )
    } else {
        (a, moved)
    }
}

/// The keyframes with one more in its place, unless there is one at that time already.
pub open spec fn with_keyframe(s: Seq<Keyframe>, k: Keyframe) -> Seq<Keyframe> {
    if exists|i: int| 0 <= i < s.len() && (#[trigger] s[i]).at_ms == k.at_ms {
        s
    } else {
        s.insert(place_after(s, k.at_ms), k)
    }
}

/// The curve of a keyframe: `"inherit"` and no string take over `before`, an unknown name does
/// so with a warning.
pub open spec fn kc_easing_step(c: CtxView, call: NodeView, before: Easing) -> (CtxView, Easing) {
    match string_value(named_value(call, "easing"@)) {
        None => (c, before),
        Some(s) => if lower(trimmed(s)) == "inherit"@ {
            (c, before)
        } else {
            match easing_named(s) {
                Some(e) => (c, e),
                None => (
                    c.warned(WarnView::UnknownEasing("'"@ + s + "' for @kc"@, c.here())),
                    before,
                ),
            }
        },
    }
}

/// When a keyframe is meant to be: now, shifted by `offset`, not before the start.
pub open spec fn shifted(cursor: u32, offset: i64) -> u32 {
    let t = cursor + offset;
    if t < 0 {
        0
    } else if t > i64::MAX {
        (i64::MAX as int % 0x1_0000_0000) as u32
    } else {
        (t % 0x1_0000_0000) as u32
    }
}

/// What a warning says of a keyframe that had to move.
pub open spec fn clamp_text(name: Seq<char>, at: u32, wanted: u32) -> Seq<char> {
    "kcpush '"@ + name
        + "' offset made its keyframe pierce a neighbouring keyframe; clamped to "@ + decimal(
        at as nat,
    ) + "ms (original effective time was "@ + decimal(wanted as nat) + "ms)"@
}

/// `kcpush(name, value, offset:, easing:)`: a keyframe for a visible keyframe counter.
pub open spec fn kcpush(c: CtxView, call: NodeView) -> CtxView {
    let (c1, key) = key_step(
        c,
        call,
        pos_or_named(call, 0, "name"@),
        "keyframe-counter name"@,
        false,
    );
    match key {
        None => c1,
        Some(name) => if !kc_visible(c1, name) {
            c1.failed(kc_unknown(c1, name))
        } else {
            match number_value(named_or_pos(call, "value"@, 1)) {
                None => c1,
                Some(value) => {
                    let at = shifted(c1.cursor, whole_or(named_or_pos(call, "offset"@, 2), 0));
                    match active_kc(c1.kcdefs, c1.scope_stack, name) {
                        None => c1,
                        Some(i) => pushed(c1, call, name, i, at, rounded(value)),
                    }
                },
            }
        },
    }
}

/// The state with a keyframe meant for `at` put into counter number `i`.
pub open spec fn pushed(
    c: CtxView,
    call: NodeView,
    name: Seq<char>,
    i: int,
    at: u32,
    value: i64,
) -> CtxView {
    let def = c.kcdefs[i];
    let (c1, easing) = kc_easing_step(c, call, easing_before(def.keyframes, at, def.easing));
    let (place, moved) = fitted(def.keyframes, at);
    let c2 = if moved {
        c1.warned(WarnView::KeyframeOffsetClamp(clamp_text(name, place, at), c1.here()))
    } else {
        c1
    };
    CtxView {
        kcdefs: c2.kcdefs.update(
            i,
            KeyframeCounterView {
                keyframes: with_keyframe(def.keyframes, Keyframe { at_ms: place, value, easing }),
                ..def
            },
        ),
        ..c2
    }
}

fn find_easing_before(v: &Vec<Keyframe>, at: u32, default: Easing) -> (r: Easing)
    ensures
        r == easing_before(v@, at, default),
{
    let mut best: Option<Keyframe> = None;
    let mut i: usize = 0;
    assert(v@.take(0) =~= Seq::<Keyframe>::empty());
    while i < v.len()
        invariant
            i <= v.len(),
            best == latest_before(v@.take(i as int), at),
        decreases v.len() - i,
    {
        assert(v@.take(i + 1).drop_last() =~= v@.take(i as int));
        let k: Keyframe = v[i];
        let newer = match best {
            Some(b) => b.at_ms <= k.at_ms,
            None => true,
        };
        if k.at_ms < at && newer {
            best = Some(k);
        }
        i += 1;
    }
    assert(v@.take(v@.len() as int) =~= v@);
    match best {
        Some(k) => k.easing,
        None => default,
    }
}

fn find_place_after(v: &Vec<Keyframe>, at: u32) -> (r: usize)
    ensures
        r as int == place_after(v@, at),
        r <= v@.len(),
{
    let ghost s = v@;
    let mut i: usize = 0;
    assert(s.subrange(0, s.len() as int) =~= s);
    while i < v.len()
        invariant
            i <= v.len(),
            s == v@,
            place_after(s, at) == i + place_after(s.subrange(i as int, s.len() as int), at),
        decreases v.len() - i,
    {
        let ghost here = s.subrange(i as int, s.len() as int);
        assert(here.subrange(1, here.len() as int) =~= s.subrange(i + 1, s.len() as int));
        if v[i].at_ms > at {
            return i;
        }
        i += 1;
    }
    assert(s.subrange(s.len() as int, s.len() as int).len() == 0);
    i
}

fn fit(v: &Vec<Keyframe>, at: u32) -> (r: (u32, bool))
    ensures
        r == fitted(v@, at),
{
    let i: usize = find_place_after(v, at);
    let mut place: u32 = at;
    let mut moved = false;
    if i > 0 && place <= v[i - 1].at_ms {
        place = crate::context::plus(v[i - 1].at_ms, 1);
        moved = true;
    }
    if i < v.len() && place >= v[i].at_ms {
        place = if v[i].at_ms == 0 {
            0
        } else {
            v[i].at_ms - 1
        };
        moved = true;
    }
    (place, moved)
}

fn insert_keyframe(v: &mut Vec<Keyframe>, k: Keyframe)
    ensures
        final(v)@ == with_keyframe(old(v)@, k),
{
    let mut i: usize = 0;
    while i < v.len()
        invariant
            i <= v.len(),
            v@ == old(v)@,
            forall|j: int| 0 <= j < i ==> (#[trigger] v@[j]).at_ms != k.at_ms,
        decreases v.len() - i,
    {
        if v[i].at_ms == k.at_ms {
            return;
        }
        i += 1;
    }
    let place: usize = find_place_after(v, k.at_ms);
    v.insert(place, k);
}

fn resolve_kc_easing(call: &Node, before: Easing, ctx: &mut ParseCtx) -> (r: Easing)
    ensures
        (final(ctx)@, r) == kc_easing_step(old(ctx)@, call@, before),
{
    match read_string(find_named_value(call, "easing")) {
        None => before,
        Some(s) => {
            let bare = string_of(trim_chars(&chars_of(s.as_str())).as_slice());
            if same(to_lower(bare.as_str()).as_str(), "inherit") {
                return before;
            }
            match Easing::from_str(s.as_str()) {
                Some(e) => e,
                None => {
                    let text = join3("'", s.as_str(), "' for @kc");
                    let at = ctx.here();
                    ctx.warn(CandyWarn::UnknownEasing(text, at));
                    before
                },
            }
        },
    }
}

fn shift(cursor: u32, offset: i64) -> (r: u32)
    ensures
        r == shifted(cursor, offset),
{
    let t: i128 = cursor as i128 + offset as i128;
    if t < 0 {
        0
    } else if t > 0x7FFF_FFFF_FFFF_FFFF {
        0xFFFF_FFFF
    } else {
        (t % 0x1_0000_0000) as u32
    }
}

fn clamp_message(name: &str, at: u32, wanted: u32) -> (r: String)
    ensures
        r@ == clamp_text(name@, at, wanted),
{
    let mut r = join3(
        "kcpush '",
        name,
        "' offset made its keyframe pierce a neighbouring keyframe; clamped to ",
    );
    r.append(to_decimal(at as u64).as_str());
    r.append("ms (original effective time was ");
    r.append(to_decimal(wanted as u64).as_str());
    r.append("ms)");
    r
}

fn push_into(call: &Node, name: &str, i: usize, at: u32, value: i64, ctx: &mut ParseCtx)
    requires
        i < old(ctx).kcdefs@.len(),
    ensures
        final(ctx)@ == pushed(old(ctx)@, call@, name@, i as int, at, value),
{
    let ghost def = ctx@.kcdefs[i as int];
    assert(def == ctx.kcdefs@[i as int]@);
    let before = find_easing_before(&ctx.kcdefs[i].keyframes, at, ctx.kcdefs[i].easing);
    let (place, moved) = fit(&ctx.kcdefs[i].keyframes, at);
    let easing = resolve_kc_easing(call, before, ctx);
    if moved {
        let here = ctx.here();
        ctx.warn(CandyWarn::KeyframeOffsetClamp(clamp_message(name, place, at), here));
    }
    let ghost kcdefs = ctx.kcdefs@;
    let ghost c2 = ctx@;
    assert(c2.kcdefs == old(ctx)@.kcdefs);
    assert(seq_view(kcdefs)[i as int] == def);
    insert_keyframe(&mut ctx.kcdefs[i].keyframes, Keyframe { at_ms: place, value, easing });
    proof {
        assert(seq_view(ctx.kcdefs@) =~= c2.kcdefs.update(
            i as int,
            KeyframeCounterView {
                keyframes: with_keyframe(def.keyframes, Keyframe { at_ms: place, value, easing }),
                ..def
            },
        ));
    }
}

/// `kcpush(name, value, offset:, easing:)`. A keyframe whose offset would carry it past a
/// neighbour stops short of it, with a warning; where there is no room it is dropped.
pub fn process_kcpush(call: &Node, ctx: &mut ParseCtx)
    ensures
        final(ctx)@ == kcpush(old(ctx)@, call@),
{
    let key = key_arg(
        call,
        find_pos_or_named(call, 0, "name"),
        "keyframe-counter name",
        false,
        ctx,
    );
    let name = match key {
        Some(name) => name,
        None => {
            return;
        },
    };
    if !kc_name_visible(ctx, name.as_str()) {
        let at = read_ref_loc(ctx, name.as_str());
        ctx.fail(Fault::UnknownKey { what: "kcnew".to_owned(), name, at });
        return;
    }
    let value: i64 = match expr_to_f64(find_named_or_pos(call, "value", 1)) {
        Some(n) => number_to_i64(n),
        None => {
            return;
        },
    };
    let offset: i64 = read_whole_or(find_named_or_pos(call, "offset", 2), 0);
    let at: u32 = shift(ctx.cursor, offset);
    if let Some(i) = active_kcdef_index(ctx, name.as_str()) {
        push_into(call, name.as_str(), i, at, value, ctx);
    }
}

// ---------------------------------------------------------------- laws

/// Keyframes in ascending order of time, no two at the same time.
pub open spec fn ascending(s: Seq<Keyframe>) -> bool {
    forall|i: int, j: int|
        0 <= i < j < s.len() ==> (#[trigger] s[i]).at_ms < (#[trigger] s[j]).at_ms
}

proof fn lemma_place_after(s: Seq<Keyframe>, at: u32)
    ensures
        0 <= place_after(s, at) <= s.len(),
        forall|i: int| 0 <= i < place_after(s, at) ==> (#[trigger] s[i]).at_ms <= at,
        place_after(s, at) < s.len() ==> s[place_after(s, at)].at_ms > at,
    decreases s.len(),
{
    if s.len() > 0 && s[0].at_ms <= at {
        let t = s.subrange(1, s.len() as int);
        lemma_place_after(t, at);
        assert forall|i: int| 0 <= i < place_after(s, at) implies (#[trigger] s[i]).at_ms <= at by {
            if i > 0 {
                assert(t[i - 1].at_ms <= at);
            }
        }
    }
}

/// A keyframe that is put in leaves the keyframes in ascending order, no two at the same time.
pub proof fn law_keyframes_ascend(s: Seq<Keyframe>, k: Keyframe)
    requires
        ascending(s),
    ensures
        ascending(with_keyframe(s, k)),
{
    if !(exists|i: int| 0 <= i < s.len() && (#[trigger] s[i]).at_ms == k.at_ms) {
        lemma_place_after(s, k.at_ms);
        let p = place_after(s, k.at_ms);
        let t = s.insert(p, k);
        assert forall|i: int, j: int| 0 <= i < j < t.len() implies (#[trigger] t[i]).at_ms < (
        #[trigger] t[j]).at_ms by {
            if i == p {
                assert(s[j - 1].at_ms >= s[p].at_ms);
            } else if j == p {
                assert(s[i].at_ms <= k.at_ms);
            } else {
                let a = if i < p {
                    i
                } else {
                    i - 1
                };
                let b = if j < p {
                    j
                } else {
                    j - 1
                };
                assert(s[a].at_ms < s[b].at_ms);
            }
        }
    }
}

/// A keyframe keeps its time where no other one has it, and stays between its neighbours where
/// there is room between them.
pub proof fn law_keyframe_fits(s: Seq<Keyframe>, at: u32)
    requires
        ascending(s),
        at < u32::MAX,
    ensures
        ({
            let i = place_after(s, at);
            let (place, moved) = fitted(s, at);
            &&& (forall|j: int| 0 <= j < s.len() ==> (#[trigger] s[j]).at_ms != at) ==> place == at
                && !moved
            &&& (i == 0 || i == s.len() || s[i].at_ms - s[i - 1].at_ms > 1) ==> (i > 0 ==> s[i
                - 1].at_ms < place) && (i < s.len() ==> place < s[i].at_ms)
        }),
{
    lemma_place_after(s, at);
}

} // verus!
