//! The walk over the syntax tree of a document.

use vstd::prelude::*;
use vstd::string::*;
use crate::args::{named_number, read_number, span, span_of};
use crate::composite::{
    blink, fade_transform, morph, process_blink, process_fade_transform, process_morph,
    process_reveal, process_spiral_in, process_subtitle, process_transform, reveal_text, spiral_in,
    subtitle, transform,
};
use crate::context::{bump, next_id, CtxView, ParseCtx};
use crate::counters::{
    counter_event, ecnew, kcnew, kcpush, process_counter_event, process_ecnew, process_kcnew,
    process_kcpush,
};
use crate::diag::{CandyWarn, Fault, FaultView, WarnView};
use crate::directives::{
    animate, appear_disappear, audio, camera, flash, focus_on, group, indicate, mobject,
    move_along_path, pause, play, process_animate, process_appear_disappear, process_audio,
    process_camera, process_flash, process_focus_on, process_group, process_indicate,
    process_mobject, process_move_along_path, process_pause, process_play, process_restore,
    process_save_state, process_scene_switch, process_set_color, process_track, process_wiggle,
    restore, save_state, scene_switch, set_color, track, wiggle,
};
use crate::expr::{
    call_items, either, expr_length_cm, expr_src, find_first_expr, find_last_expr, find_last_kind,
    find_named_value, find_pos_or_named, find_right_side, first_expr, first_ident, first_ident_text,
    is_typst_ident, is_valid_typst_ident, last_expr, length_value, named_value, pos_or_named,
    read_string, right_side, source_text, string_value,
};
use crate::number::{clamped_floor, number_to_u32, Length};
use crate::scene::{
    lemma_seq_view_push, seq_view, CounterEventKind, GlobalConfig, SceneInfo, SceneInfoView,
    ScopeInfo, Span,
};
use crate::symbols::{
    any_candy, bindings, call_symbol, has_candy_name, import_source, imported,
    is_candy_show_callee, is_show_callee, let_names, module_import_path, process_import, shadow,
    shadowed, symbol_of,
};
use crate::syntax::{lemma_nodes_view, node_view, nodes_view, Kind, Node, NodeView};
use crate::text::{
    chars_of, join2, join3, list_has, same, string_of, texts, trim_chars, trimmed,
};

verus! {

broadcast use {lemma_nodes_view, lemma_seq_view_push};

// ---------------------------------------------------------------- name references

/// Which argument of a directive refers to something by name.
#[derive(Debug, Clone, Copy, PartialEq, Eq, Structural)]
pub enum RefForm {
    /// The first argument, or `target`.
    Target,
    /// `target` or `name`.
    Switch,
    /// The first argument, or `name`.
    Counter,
    /// None.
    Nothing,
}

/// Which argument of a directive refers to something by name.
pub open spec fn ref_form(sym: Seq<char>) -> RefForm {
    if sym == "animate"@ || sym == "track"@ || sym == "indicate"@ || sym == "flash"@ || sym
        == "wiggle"@ || sym == "appear"@ || sym == "disappear"@ || sym == "set-color"@ || sym
        == "blink"@ || sym == "spiral-in"@ || sym == "focus-on"@ || sym == "fade-transform"@ || sym
        == "move-along-path"@ || sym == "morph"@ || sym == "transform"@ || sym == "reveal"@ || sym
        == "typewriter"@ {
        RefForm::Target
    } else if sym == "scene-switch"@ {
        RefForm::Switch
    } else if sym == "ecnew"@ || sym == "ecval"@ || sym == "ecpause"@ || sym == "ecresume"@ || sym
        == "ecdestroy"@ {
        RefForm::Counter
    } else {
        RefForm::Nothing
    }
}

fn find_ref_form(sym: &str) -> (r: RefForm)
    ensures
        r == ref_form(sym@),
{
    if same(sym, "animate") || same(sym, "track") || same(sym, "indicate") || same(sym, "flash")
        || same(sym, "wiggle") || same(sym, "appear") || same(sym, "disappear") || same(
        sym,
        "set-color",
    ) || same(sym, "blink") || same(sym, "spiral-in") || same(sym, "focus-on") || same(
        sym,
        "fade-transform",
    ) || same(sym, "move-along-path") || same(sym, "morph") || same(sym, "transform") || same(
        sym,
        "reveal",
    ) || same(sym, "typewriter") {
        RefForm::Target
    } else if same(sym, "scene-switch") {
        RefForm::Switch
    } else if same(sym, "ecnew") || same(sym, "ecval") || same(sym, "ecpause") || same(
        sym,
        "ecresume",
    ) || same(sym, "ecdestroy") {
        RefForm::Counter
    } else {
        RefForm::Nothing
    }
}

/// The name that a directive refers to.
pub open spec fn referred(call: NodeView, sym: Seq<char>) -> Option<Seq<char>> {
    string_value(
        match ref_form(sym) {
            RefForm::Target => pos_or_named(call, 0, "target"@),
            RefForm::Switch => either(named_value(call, "target"@), named_value(call, "name"@)),
            RefForm::Counter => pos_or_named(call, 0, "name"@),
            RefForm::Nothing => None,
        },
    )
}

/// Where a string literal with the given value first stands in a tree.
pub open spec fn literal_place(n: NodeView, name: Seq<char>) -> Option<Span>
    decreases n,
{
    if n.value == Some(name) {
        Some(span(n))
    } else {
        literal_place_in(n.children, name)
    }
}

/// Where a string literal with the given value first stands in a list of trees.
pub open spec fn literal_place_in(s: Seq<NodeView>, name: Seq<char>) -> Option<Span>
    decreases s,
{
    if s.len() == 0 {
        None
    } else {
        match literal_place_in(s.drop_last(), name) {
            Some(x) => Some(x),
            None => literal_place(s.last(), name),
        }
    }
}

fn find_str_loc(n: &Node, name: &str) -> (r: Option<Span>)
    ensures
        r == literal_place(n@, name@),
    decreases n@,
{
    if let Some(v) = &n.value {
        if same(v.as_str(), name) {
            return Some(span_of(n));
        }
    }
    let ghost s = n@.children;
    let mut i: usize = 0;
    let mut found: Option<Span> = None;
    assert(s.take(0) =~= Seq::<NodeView>::empty());
    while i < n.children.len()
        invariant
            i <= n.children.len(),
            s == n@.children,
            s == nodes_view(n.children@),
            found == literal_place_in(s.take(i as int), name@),
        decreases n.children.len() - i,
    {
        proof {
            assert(s[i as int] == node_view(n.children@[i as int]));
            assert(decreases_to!(n@ => n@.children[i as int]));
            assert(s.take(i + 1).drop_last() =~= s.take(i as int));
        }
        if found.is_none() {
            found = find_str_loc(&n.children[i], name);
        }
        i += 1;
    }
    assert(s.take(s.len() as int) =~= s);
    found
}

/// The state with the place recorded where a directive refers to something.
pub open spec fn refs_recorded(c: CtxView, call: NodeView, sym: Seq<char>) -> CtxView {
    match referred(call, sym) {
        Some(name) => match literal_place(call, name) {
            Some(at) => CtxView { name_ref_locs: c.name_ref_locs.insert(name, at), ..c },
            None => c,
        },
        None => c,
    }
}

fn record_name_refs(call: &Node, sym: &str, ctx: &mut ParseCtx)
    ensures
        final(ctx)@ == refs_recorded(old(ctx)@, call@, sym@),
{
    let e = match find_ref_form(sym) {
        RefForm::Target => find_pos_or_named(call, 0, "target"),
        RefForm::Switch => match find_named_value(call, "target") {
            Some(e) => Some(e),
            None => find_named_value(call, "name"),
        },
        RefForm::Counter => find_pos_or_named(call, 0, "name"),
        RefForm::Nothing => None,
    };
    if let Some(name) = read_string(e) {
        if let Some(at) = find_str_loc(call, name.as_str()) {
            ctx.name_ref_locs.insert(name, at);
        }
    }
}

// ---------------------------------------------------------------- dispatch

/// What a directive does.
#[verifier::opaque]
pub open spec fn directive(c: CtxView, call: NodeView, sym: Seq<char>) -> CtxView {
    if sym == "track"@ {
        track(c, call)
    } else if sym == "mobject"@ {
        mobject(c, call)
    } else if sym == "animate"@ {
        animate(c, call)
    } else if sym == "pause"@ {
        pause(c, call)
    } else if sym == "audio"@ {
        audio(c, call)
    } else if sym == "play"@ {
        play(c, call)
    } else {
        emphasis_directive(c, call, sym)
    }
}

/// What a directive does that remembers a mobject or draws attention to it.
#[verifier::opaque]
pub open spec fn emphasis_directive(c: CtxView, call: NodeView, sym: Seq<char>) -> CtxView {
    if sym == "save-state"@ {
        save_state(c, call)
    } else if sym == "restore"@ {
        restore(c, call)
    } else if sym == "indicate"@ {
        indicate(c, call)
    } else if sym == "flash"@ {
        flash(c, call)
    } else if sym == "wiggle"@ {
        wiggle(c, call)
    } else if sym == "appear"@ {
        appear_disappear(c, call, true)
    } else if sym == "disappear"@ {
        appear_disappear(c, call, false)
    } else {
        look_directive(c, call, sym)
    }
}

/// What a directive does that changes the looks or the place of a mobject.
#[verifier::opaque]
pub open spec fn look_directive(c: CtxView, call: NodeView, sym: Seq<char>) -> CtxView {
    if sym == "set-color"@ {
        set_color(c, call)
    } else if sym == "blink"@ {
        blink(c, call)
    } else if sym == "spiral-in"@ {
        spiral_in(c, call)
    } else if sym == "focus-on"@ {
        focus_on(c, call)
    } else if sym == "fade-transform"@ {
        fade_transform(c, call)
    } else if sym == "move-along-path"@ {
        move_along_path(c, call)
    } else {
        content_directive(c, call, sym)
    }
}

/// What a directive does that changes what is shown.
#[verifier::opaque]
pub open spec fn content_directive(c: CtxView, call: NodeView, sym: Seq<char>) -> CtxView {
    if sym == "morph"@ {
        morph(c, call)
    } else if sym == "transform"@ {
        transform(c, call)
    } else if sym == "camera"@ {
        camera(c, call)
    } else if sym == "group"@ {
        group(c, call)
    } else {
        text_directive(c, call, sym)
    }
}

/// What a directive does that shows texts or another scene.
#[verifier::opaque]
pub open spec fn text_directive(c: CtxView, call: NodeView, sym: Seq<char>) -> CtxView {
    if sym == "reveal"@ {
        reveal_text(c, call, false)
    } else if sym == "typewriter"@ {
        reveal_text(c, call, true)
    } else if sym == "subtitle"@ {
        subtitle(c, call)
    } else if sym == "scene-switch"@ {
        scene_switch(c, call)
    } else {
        counter_directive(c, call, sym)
    }
}

/// What a directive on counters does. Reading a counter does nothing here.
#[verifier::opaque]
pub open spec fn counter_directive(c: CtxView, call: NodeView, sym: Seq<char>) -> CtxView {
    if sym == "ecnew"@ {
        ecnew(c, call)
    } else if sym == "ecpause"@ {
        counter_event(c, call, CounterEventKind::Pause, false)
    } else if sym == "ecresume"@ {
        counter_event(c, call, CounterEventKind::Resume, false)
    } else if sym == "ecdestroy"@ {
        counter_event(c, call, CounterEventKind::Destroy, false)
    } else if sym == "kcnew"@ {
        kcnew(c, call)
    } else if sym == "kcpush"@ {
        kcpush(c, call)
    } else if sym == "kcpause"@ {
        counter_event(c, call, CounterEventKind::Pause, true)
    } else if sym == "kcresume"@ {
        counter_event(c, call, CounterEventKind::Resume, true)
    } else if sym == "kcdestroy"@ {
        counter_event(c, call, CounterEventKind::Destroy, true)
    } else {
        c
    }
}

fn process_counter_directive(call: &Node, sym: &str, ctx: &mut ParseCtx)
    ensures
        final(ctx)@ == counter_directive(old(ctx)@, call@, sym@),
{
    proof {
        reveal(counter_directive);
    }
    if same(sym, "ecnew") {
        process_ecnew(call, ctx)
    } else if same(sym, "ecpause") {
        process_counter_event(call, ctx, CounterEventKind::Pause, false)
    } else if same(sym, "ecresume") {
        process_counter_event(call, ctx, CounterEventKind::Resume, false)
    } else if same(sym, "ecdestroy") {
        process_counter_event(call, ctx, CounterEventKind::Destroy, false)
    } else if same(sym, "kcnew") {
        process_kcnew(call, ctx)
    } else if same(sym, "kcpush") {
        process_kcpush(call, ctx)
    } else if same(sym, "kcpause") {
        process_counter_event(call, ctx, CounterEventKind::Pause, true)
    } else if same(sym, "kcresume") {
        process_counter_event(call, ctx, CounterEventKind::Resume, true)
    } else if same(sym, "kcdestroy") {
        process_counter_event(call, ctx, CounterEventKind::Destroy, true)
    }
}

fn process_text_directive(call: &Node, sym: &str, ctx: &mut ParseCtx)
    ensures
        final(ctx)@ == text_directive(old(ctx)@, call@, sym@),
{
    proof {
        reveal(text_directive);
    }
    if same(sym, "reveal") {
        process_reveal(call, false, ctx)
    } else if same(sym, "typewriter") {
        process_reveal(call, true, ctx)
    } else if same(sym, "subtitle") {
        process_subtitle(call, ctx)
    } else if same(sym, "scene-switch") {
        process_scene_switch(call, ctx)
    } else {
        process_counter_directive(call, sym, ctx)
    }
}

fn process_content_directive(call: &Node, sym: &str, ctx: &mut ParseCtx)
    ensures
        final(ctx)@ == content_directive(old(ctx)@, call@, sym@),
{
    proof {
        reveal(content_directive);
    }
    if same(sym, "morph") {
        process_morph(call, ctx)
    } else if same(sym, "transform") {
        process_transform(call, ctx)
    } else if same(sym, "camera") {
        process_camera(call, ctx)
    } else if same(sym, "group") {
        process_group(call, ctx)
    } else {
        process_text_directive(call, sym, ctx)
    }
}

fn process_look_directive(call: &Node, sym: &str, ctx: &mut ParseCtx)
    ensures
        final(ctx)@ == look_directive(old(ctx)@, call@, sym@),
{
    proof {
        reveal(look_directive);
    }
    if same(sym, "set-color") {
        process_set_color(call, ctx)
    } else if same(sym, "blink") {
        process_blink(call, ctx)
    } else if same(sym, "spiral-in") {
        process_spiral_in(call, ctx)
    } else if same(sym, "focus-on") {
        process_focus_on(call, ctx)
    } else if same(sym, "fade-transform") {
        process_fade_transform(call, ctx)
    } else if same(sym, "move-along-path") {
        process_move_along_path(call, ctx)
    } else {
        process_content_directive(call, sym, ctx)
    }
}

fn process_emphasis_directive(call: &Node, sym: &str, ctx: &mut ParseCtx)
    ensures
        final(ctx)@ == emphasis_directive(old(ctx)@, call@, sym@),
{
    proof {
        reveal(emphasis_directive);
    }
    if same(sym, "save-state") {
        process_save_state(call, ctx)
    } else if same(sym, "restore") {
        process_restore(call, ctx)
    } else if same(sym, "indicate") {
        process_indicate(call, ctx)
    } else if same(sym, "flash") {
        process_flash(call, ctx)
    } else if same(sym, "wiggle") {
        process_wiggle(call, ctx)
    } else if same(sym, "appear") {
        process_appear_disappear(call, true, ctx)
    } else if same(sym, "disappear") {
        process_appear_disappear(call, false, ctx)
    } else {
        process_look_directive(call, sym, ctx)
    }
}

fn process_directive(call: &Node, sym: &str, ctx: &mut ParseCtx)
    ensures
        final(ctx)@ == directive(old(ctx)@, call@, sym@),
{
    proof {
        reveal(directive);
    }
    if same(sym, "track") {
        process_track(call, ctx)
    } else if same(sym, "mobject") {
        process_mobject(call, ctx)
    } else if same(sym, "animate") {
        process_animate(call, ctx)
    } else if same(sym, "pause") {
        process_pause(call, ctx)
    } else if same(sym, "audio") {
        process_audio(call, ctx)
    } else if same(sym, "play") {
        process_play(call, ctx)
    } else {
        process_emphasis_directive(call, sym, ctx)
    }
}

/// What a call does: nothing, unless it is a candy directive.
#[verifier::opaque]
pub open spec fn called(c: CtxView, call: NodeView) -> CtxView {
    match symbol_of(c, call) {
        None => c,
        Some(sym) => {
            let c1 = CtxView { current_directive_loc: Some(span(call)), ..c };
            directive(refs_recorded(c1, call, sym), call, sym)
        },
    }
}

/// Resolves and carries out a call.
pub fn process_call(call: &Node, ctx: &mut ParseCtx)
    ensures
        final(ctx)@ == called(old(ctx)@, call@),
{
    proof {
        reveal(called);
    }
    if let Some(sym) = call_symbol(call, ctx) {
        ctx.current_directive_loc = Some(span_of(call));
        record_name_refs(call, sym.as_str(), ctx);
        process_directive(call, sym.as_str(), ctx);
    }
}

// ---------------------------------------------------------------- page, show rule

/// Width and height that the named arguments in a tree give, the later ones over the earlier.
pub open spec fn dimensions(
    n: NodeView,
    d: (Option<Length>, Option<Length>),
) -> (Option<Length>, Option<Length>)
    decreases n,
{
    let own = if n.kind == Kind::Named {
        match length_value(right_side(n)) {
            Some(l) => if first_ident(n.children) == "width"@ {
                (Some(l), d.1)
            } else if first_ident(n.children) == "height"@ {
                (d.0, Some(l))
            } else {
                d
            },
            None => d,
        }
    } else {
        d
    };
    dimensions_in(n.children, own)
}

/// Width and height that the named arguments in a list of trees give.
pub open spec fn dimensions_in(
    s: Seq<NodeView>,
    d: (Option<Length>, Option<Length>),
) -> (Option<Length>, Option<Length>)
    decreases s,
{
    if s.len() == 0 {
        d
    } else {
        dimensions(s.last(), dimensions_in(s.drop_last(), d))
    }
}

fn collect_named_lengths(n: &Node, d: (Option<Length>, Option<Length>)) -> (r: (
    Option<Length>,
    Option<Length>,
))
    ensures
        r == dimensions(n@, d),
    decreases n@,
{
    let mut d = d;
    if n.kind == Kind::Named {
        if let Some(l) = expr_length_cm(find_right_side(n)) {
            let name = first_ident_text(&n.children);
            if same(name.as_str(), "width") {
                d = (Some(l), d.1);
            } else if same(name.as_str(), "height") {
                d = (d.0, Some(l));
            }
        }
    }
    let ghost own = d;
    let ghost s = n@.children;
    let mut i: usize = 0;
    assert(s.take(0) =~= Seq::<NodeView>::empty());
    while i < n.children.len()
        invariant
            i <= n.children.len(),
            s == n@.children,
            s == nodes_view(n.children@),
            d == dimensions_in(s.take(i as int), own),
        decreases n.children.len() - i,
    {
        proof {
            assert(s[i as int] == node_view(n.children@[i as int]));
            assert(decreases_to!(n@ => n@.children[i as int]));
            assert(s.take(i + 1).drop_last() =~= s.take(i as int));
        }
        d = collect_named_lengths(&n.children[i], d);
        i += 1;
    }
    assert(s.take(s.len() as int) =~= s);
    d
}

/// Whether a set rule is about the page.
pub open spec fn sets_page(n: NodeView) -> bool {
    n.kind == Kind::SetRule && (match first_expr(n.children) {
        Some(t) => t.kind == Kind::Ident && t.text == "page"@,
        None => false,
    })
}

/// The state with the page size of a set rule. Only the first page size counts.
pub open spec fn page_sized(c: CtxView, n: NodeView) -> CtxView {
    if sets_page(n) && c.page_size is None {
        match dimensions(n, (None, None)) {
            (Some(w), Some(h)) => CtxView { page_size: Some((w, h)), ..c },
            _ => c,
        }
    } else {
        c
    }
}

fn extract_page_size(n: &Node, ctx: &mut ParseCtx)
    ensures
        final(ctx)@ == page_sized(old(ctx)@, n@),
{
    if n.kind == Kind::SetRule {
        if let Some(t) = find_first_expr(&n.children) {
            if t.kind == Kind::Ident && same(t.text.as_str(), "page") && ctx.page_size.is_none() {
                match collect_named_lengths(n, (None, None)) {
                    (Some(w), Some(h)) => {
                        ctx.page_size = Some((w, h));
                    },
                    _ => {},
                }
            }
        }
    }
}

/// Whether a show rule is restricted to some elements: an expression in front of its colon.
pub open spec fn has_selector(s: Seq<NodeView>) -> bool
    decreases s.len(),
{
    if s.len() == 0 {
        false
    } else if s.last().kind == Kind::Colon {
        last_expr(s) is Some
    } else {
        has_selector(s.drop_last())
    }
}

fn find_expr_before(v: &Vec<Node>, end: usize) -> (r: bool)
    requires
        end <= v@.len(),
    ensures
        r == (last_expr(nodes_view(v@).take(end as int)) is Some),
{
    let ghost s = nodes_view(v@);
    let mut i: usize = end;
    while i > 0
        invariant
            i <= end <= v@.len(),
            s == nodes_view(v@),
            last_expr(s.take(end as int)) == last_expr(s.take(i as int)),
        decreases i,
    {
        assert(s.take(i as int).drop_last() =~= s.take(i - 1));
        assert(s[i - 1] == node_view(v@[i - 1]));
        if v[i - 1].expr {
            return true;
        }
        i -= 1;
    }
    false
}

fn is_selective(v: &Vec<Node>) -> (r: bool)
    ensures
        r == has_selector(nodes_view(v@)),
{
    let ghost s = nodes_view(v@);
    let mut i: usize = v.len();
    assert(s.take(s.len() as int) =~= s);
    while i > 0
        invariant
            i <= v.len(),
            s == nodes_view(v@),
            has_selector(s) == has_selector(s.take(i as int)),
        decreases i,
    {
        assert(s.take(i as int).drop_last() =~= s.take(i - 1));
        assert(s[i - 1] == node_view(v@[i - 1]));
        if v[i - 1].kind == Kind::Colon {
            return find_expr_before(v, i);
        }
        i -= 1;
    }
    false
}

/// The last length that a named argument gives.
pub open spec fn last_length(s: Seq<NodeView>, name: Seq<char>) -> Option<Length>
    decreases s.len(),
{
    if s.len() == 0 {
        None
    } else {
        let n = s.last();
        if n.kind == Kind::Named && first_ident(n.children) == name && length_value(
            right_side(n),
        ) is Some {
            length_value(right_side(n))
        } else {
            last_length(s.drop_last(), name)
        }
    }
}

fn find_last_length(call: &Node, name: &str) -> (r: Option<Length>)
    ensures
        r == last_length(call_items(call@), name@),
{
    match find_last_kind(&call.children, Kind::Args) {
        None => None,
        Some(a) => {
            let v = &a.children;
            let ghost s = nodes_view(v@);
            let mut i: usize = v.len();
            assert(s.take(s.len() as int) =~= s);
            while i > 0
                invariant
                    i <= v.len(),
                    s == nodes_view(v@),
                    s == call_items(call@),
                    last_length(s, name@) == last_length(s.take(i as int), name@),
                decreases i,
            {
                assert(s.take(i as int).drop_last() =~= s.take(i - 1));
                assert(s[i - 1] == node_view(v@[i - 1]));
                let n = &v[i - 1];
                if n.kind == Kind::Named && same(first_ident_text(&n.children).as_str(), name) {
                    if let Some(l) = expr_length_cm(find_right_side(n)) {
                        return Some(l);
                    }
                }
                i -= 1;
            }
            None
        },
    }
}

/// The canvas that the candy show rule asks for; what it leaves out stays as it is.
pub open spec fn configured(config: GlobalConfig, rule: NodeView) -> GlobalConfig {
    if rule.kind != Kind::FuncCall {
        config
    } else {
        let s = call_items(rule);
        GlobalConfig {
            width: match last_length(s, "width"@) {
                Some(l) => l,
                None => config.width,
            },
            height: match last_length(s, "height"@) {
                Some(l) => l,
                None => config.height,
            },
            ppi: match named_number(rule, "ppi"@) {
                Some(n) => clamped_floor(n, u32::MAX as nat) as u32,
                None => config.ppi,
            },
            fps: match named_number(rule, "fps"@) {
                Some(n) => clamped_floor(n, u32::MAX as nat) as u32,
                None => config.fps,
            },
        }
    }
}

/// The state with a show rule looked at. The first candy show rule sets the canvas; later ones
/// do nothing.
pub open spec fn show_ruled(c: CtxView, n: NodeView) -> CtxView {
    if n.kind == Kind::ShowRule && !has_selector(n.children) && !c.candy_show_rule_seen {
        match last_expr(n.children) {
            Some(rule) => if is_show_callee(c, rule) {
                CtxView {
                    candy_show_rule_seen: true,
                    config: configured(c.config, rule),
                    ..c
                }
            } else {
                c
            },
            None => c,
        }
    } else {
        c
    }
}

fn detect_candy_show_rule(n: &Node, ctx: &mut ParseCtx)
    ensures
        final(ctx)@ == show_ruled(old(ctx)@, n@),
{
    if n.kind != Kind::ShowRule || is_selective(&n.children) || ctx.candy_show_rule_seen {
        return;
    }
    let rule = match find_last_expr(&n.children) {
        Some(rule) => rule,
        None => {
            return;
        },
    };
    if !is_candy_show_callee(rule, ctx) {
        return;
    }
    ctx.candy_show_rule_seen = true;
    if rule.kind == Kind::FuncCall {
        if let Some(l) = find_last_length(rule, "width") {
            ctx.config.width = l;
        }
        if let Some(l) = find_last_length(rule, "height") {
            ctx.config.height = l;
        }
        if let Some(p) = read_number(rule, "ppi") {
            ctx.config.ppi = number_to_u32(p);
        }
        if let Some(f) = read_number(rule, "fps") {
            ctx.config.fps = number_to_u32(f);
        }
    }
}

/// The size of the canvas: that of the candy show rule, or else of the page.
pub open spec fn canvas(c: CtxView) -> Option<(Length, Length)> {
    if c.candy_show_rule_seen {
        Some((c.config.width, c.config.height))
    } else {
        c.page_size
    }
}

/// The size of the canvas.
pub fn canvas_of(ctx: &ParseCtx) -> (r: Option<(Length, Length)>)
    ensures
        r == canvas(ctx@),
{
    if ctx.candy_show_rule_seen {
        Some((ctx.config.width, ctx.config.height))
    } else {
        ctx.page_size
    }
}

// ---------------------------------------------------------------- imports and helpers

/// A line of source text as it can stand on its own.
pub open spec fn own_line(n: NodeView) -> Seq<char> {
    "#"@ + trimmed(source_text(n))
}

/// The state with a line to repeat in front of each mobject, once.
pub open spec fn with_line(c: CtxView, line: Seq<char>) -> CtxView {
    if c.imports.contains(line) {
        c
    } else {
        CtxView { imports: c.imports.push(line), ..c }
    }
}

fn keep_line(n: &Node, ctx: &mut ParseCtx)
    ensures
        final(ctx)@ == with_line(old(ctx)@, own_line(n@)),
{
    let body = trim_chars(&chars_of(expr_src(n).as_str()));
    let line = join2("#", string_of(body.as_slice()).as_str());
    if !list_has(&ctx.imports, line.as_str()) {
        let ghost lv = line@;
        ctx.imports.push(line);
        assert(texts(ctx.imports@) =~= texts(old(ctx).imports@).push(lv));
    }
}

/// The state with a `let` looked at: what it binds is no candy symbol any more. A helper at the
/// top level is kept, so that mobjects can use it.
pub open spec fn let_bound(c: CtxView, n: NodeView) -> CtxView {
    if n.kind != Kind::LetBinding {
        c
    } else {
        let names = let_names(n);
        let c1 = CtxView { symbol_map: shadowed(c.symbol_map, names), ..c };
        if !any_candy(names) && c1.scene_stack.len() == 0 && c1.scope_stack.len() == 1 {
            with_line(c1, own_line(n))
        } else {
            c1
        }
    }
}

fn process_let(n: &Node, ctx: &mut ParseCtx)
    ensures
        final(ctx)@ == let_bound(old(ctx)@, n@),
{
    if n.kind == Kind::LetBinding {
        let names = bindings(n);
        shadow(&mut ctx.symbol_map, &names);
        if !has_candy_name(&names) && ctx.scene_stack.len() == 0 && ctx.scope_stack.len() == 1 {
            keep_line(n, ctx);
        }
    }
}

/// The state with an import line kept, where it names a package, and processed.
pub open spec fn import_walked(c: CtxView, n: NodeView) -> CtxView {
    imported(
        match import_source(n) {
            Some(s) => if s.len() > 0 && s[0] == '@' {
                with_line(c, own_line(n))
            } else {
                c
            },
            None => c,
        },
        n,
    )
}

fn walk_import(n: &Node, ctx: &mut ParseCtx)
    ensures
        final(ctx)@ == import_walked(old(ctx)@, n@),
{
    if let Some(src) = module_import_path(n) {
        let s = chars_of(src.as_str());
        if s.len() > 0 && s[0] == '@' {
            keep_line(n, ctx);
        }
    }
    process_import(n, ctx);
}

// ---------------------------------------------------------------- scenes

/// What is wrong with an argument of a scene: only `name` is known, and it must be a string that
/// is an identifier.
pub open spec fn scene_arg_fault(call: NodeView, n: NodeView) -> Option<FaultView> {
    if n.kind != Kind::Named {
        None
    } else if first_ident(n.children) == "name"@ {
        match right_side(n).value {
            Some(s) => if is_typst_ident(s) {
                None
            } else {
                Some(
                    FaultView::InvalidKey {
                        what: "scene name"@,
                        value: s,
                        not_ident: true,
                        at: Some(span(call)),
                    },
                )
            },
            None => Some(
                FaultView::Parse {
                    message:
                        "the `name` argument of #scene must be a string literal, got a non-string value"@,
                    at: Some(span(call)),
                },
            ),
        }
    } else {
        Some(
            FaultView::Parse {
                message: "`"@ + first_ident(n.children)
                    + "` is not a valid argument for #scene; valid arguments are: name"@,
                at: Some(span(call)),
            },
        )
    }
}

/// What is wrong with the first wrong argument of a scene.
pub open spec fn scene_fault(call: NodeView, s: Seq<NodeView>) -> Option<FaultView>
    decreases s.len(),
{
    if s.len() == 0 {
        None
    } else {
        match scene_fault(call, s.drop_last()) {
            Some(f) => Some(f),
            None => scene_arg_fault(call, s.last()),
        }
    }
}

fn check_scene_arg(call: &Node, n: &Node) -> (r: Option<Fault>)
    ensures
        crate::context::opt_fault(r) == scene_arg_fault(call@, n@),
{
    if n.kind != Kind::Named {
        return None;
    }
    let name = first_ident_text(&n.children);
    let at = Some(span_of(call));
    if same(name.as_str(), "name") {
        match &find_right_side(n).value {
            Some(s) => if is_valid_typst_ident(s.as_str()) {
                None
            } else {
                Some(
                    Fault::InvalidKey {
                        what: "scene name".to_owned(),
                        value: s.clone(),
                        not_ident: true,
                        at,
                    },
                )
            },
            None => Some(
                Fault::Parse {
                    message:
                        "the `name` argument of #scene must be a string literal, got a non-string value".to_owned(),
                    at,
                },
            ),
        }
    } else {
        let message = join3(
            "`",
            name.as_str(),
            "` is not a valid argument for #scene; valid arguments are: name",
        );
        Some(Fault::Parse { message, at })
    }
}

fn check_scene_args(call: &Node) -> (r: Option<Fault>)
    ensures
        crate::context::opt_fault(r) == scene_fault(call@, call_items(call@)),
{
    match find_last_kind(&call.children, Kind::Args) {
        None => None,
        Some(a) => {
            let v = &a.children;
            let ghost s = nodes_view(v@);
            let mut i: usize = 0;
            assert(s.take(0) =~= Seq::<NodeView>::empty());
            while i < v.len()
                invariant
                    i <= v.len(),
                    s == nodes_view(v@),
                    s == call_items(call@),
                    scene_fault(call@, s.take(i as int)) is None,
                decreases v.len() - i,
            {
                assert(s.take(i + 1).drop_last() =~= s.take(i as int));
                assert(s[i as int] == node_view(v@[i as int]));
                if let Some(f) = check_scene_arg(call, &v[i]) {
                    proof {
                        lemma_scene_fault_first(call@, s, i + 1);
                    }
                    return Some(f);
                }
                i += 1;
            }
            assert(s.take(s.len() as int) =~= s);
            None
        },
    }
}

proof fn lemma_scene_fault_first(call: NodeView, s: Seq<NodeView>, k: int)
    requires
        0 <= k <= s.len(),
        scene_fault(call, s.take(k)) is Some,
    ensures
        scene_fault(call, s) == scene_fault(call, s.take(k)),
    decreases s.len(),
{
    if k == s.len() {
        assert(s.take(k) =~= s);
    } else {
        assert(s.drop_last().take(k) =~= s.take(k));
        lemma_scene_fault_first(call, s.drop_last(), k);
    }
}

/// The place of the first scene with the given id; the length where there is none.
pub open spec fn scene_index(s: Seq<SceneInfoView>, id: usize) -> int
    decreases s.len(),
{
    if s.len() == 0 || s[0].id == id {
        0
    } else {
        1 + scene_index(s.subrange(1, s.len() as int), id)
    }
}

/// The place of the first scene with the given id; the length where there is none.
pub fn find_scene(v: &Vec<SceneInfo>, id: usize) -> (r: usize)
    ensures
        r as int == scene_index(seq_view(v@), id),
        r <= v@.len(),
{
    let ghost s = seq_view(v@);
    let mut i: usize = 0;
    assert(s.subrange(0, s.len() as int) =~= s);
    while i < v.len()
        invariant
            i <= v.len(),
            s == seq_view(v@),
            scene_index(s, id) == i + scene_index(s.subrange(i as int, s.len() as int), id),
        decreases v.len() - i,
    {
        let ghost here = s.subrange(i as int, s.len() as int);
        assert(here.subrange(1, here.len() as int) =~= s.subrange(i + 1, s.len() as int));
        assert(here[0] == v@[i as int]@);
        if v[i].id == id {
            return i;
        }
        i += 1;
    }
    assert(s.subrange(s.len() as int, s.len() as int).len() == 0);
    i
}

/// The scenes with the end of one of them set.
pub open spec fn ended(s: Seq<SceneInfoView>, id: usize, end_ms: u32) -> Seq<SceneInfoView> {
    let i = scene_index(s, id);
    if 0 <= i < s.len() {
        s.update(i, SceneInfoView { end_ms, ..s[i] })
    } else {
        s
    }
}

/// Sets the end of a scene.
pub fn end_scene(v: &mut Vec<SceneInfo>, id: usize, end_ms: u32)
    ensures
        seq_view(final(v)@) == ended(seq_view(old(v)@), id, end_ms),
{
    let i: usize = find_scene(v, id);
    if i < v.len() {
        let ghost before = seq_view(v@);
        assert(before[i as int] == v@[i as int]@);
        v[i].end_ms = end_ms;
        assert(seq_view(v@) =~= before.update(
            i as int,
            SceneInfoView { end_ms, ..before[i as int] },
        ));
    }
}

/// Whether a scene with the given name is declared.
pub open spec fn scene_named(s: Seq<SceneInfoView>, name: Seq<char>) -> bool {
    exists|i: int| 0 <= i < s.len() && (#[trigger] s[i]).name == Some(name)
}

fn is_scene_named(v: &Vec<SceneInfo>, name: &str) -> (r: bool)
    ensures
        r == scene_named(seq_view(v@), name@),
{
    let ghost s = seq_view(v@);
    let mut i: usize = 0;
    while i < v.len()
        invariant
            i <= v.len(),
            s == seq_view(v@),
            forall|j: int| 0 <= j < i ==> (#[trigger] s[j]).name != Some(name@),
        decreases v.len() - i,
    {
        assert(s[i as int] == v@[i as int]@);
        if let Some(n) = &v[i].name {
            if same(n.as_str(), name) {
                return true;
            }
        }
        i += 1;
    }
    false
}

/// The fault of a scene inside a scene.
pub open spec fn nested_fault(call: NodeView) -> FaultView {
    FaultView::Scene {
        message:
            "nested #scene is not allowed; a scene may only be defined at the document root. Use `#switch(target: \"name\")` to move between scenes instead of nesting them."@,
        at: Some(span(call)),
    }
}

/// The state with a scene open, or with the fault that keeps it from opening.
pub open spec fn scene_opened(c: CtxView, call: NodeView) -> Result<CtxView, CtxView> {
    if c.scene_stack.len() > 0 {
        Err(c.failed(nested_fault(call)))
    } else {
        let id = c.next_scene_id;
        let scope = c.next_scope_id;
        let c1 = CtxView {
            next_scene_id: next_id(id),
            next_scope_id: next_id(scope),
            ..c
        };
        match scene_fault(call, call_items(call)) {
            Some(f) => Err(c1.failed(f)),
            None => {
                let name = string_value(named_value(call, "name"@));
                let c2 = CtxView {
                    scene_call_ranges: c1.scene_call_ranges.push((id, span(call))),
                    ..c1
                };
                let c3 = match name {
                    Some(n) => if scene_named(c2.scenes, n) {
                        c2.warned(WarnView::DuplicateName("scene"@, n, span(call)))
                    } else {
                        c2
                    },
                    None => c2,
                };
                Ok(
                    CtxView {
                        scenes: c3.scenes.push(
                            SceneInfoView {
                                id,
                                name,
                                scope,
                                page_size: canvas(c3),
                                start_ms: c3.cursor,
                                end_ms: c3.cursor,
                                owns_labels: Seq::empty(),
                            },
                        ),
                        scene_stack: c3.scene_stack.push(id),
                        current_scene: id,
                        ..c3
                    },
                )
            },
        }
    }
}

/// Opens a scene. Scenes stand at the root of the document and take a name and nothing else.
fn open_scene(call: &Node, ctx: &mut ParseCtx) -> (r: Option<usize>)
    ensures
        match r {
            Some(id) => id == old(ctx)@.next_scene_id && scene_opened(old(ctx)@, call@) == Ok::<
                CtxView,
                CtxView,
            >(final(ctx)@),
            None => scene_opened(old(ctx)@, call@) == Err::<CtxView, CtxView>(final(ctx)@),
        },
{
    if ctx.scene_stack.len() > 0 {
        ctx.fail(
            Fault::Scene {
                message:
                    "nested #scene is not allowed; a scene may only be defined at the document root. Use `#switch(target: \"name\")` to move between scenes instead of nesting them.".to_owned(),
                at: Some(span_of(call)),
            },
        );
        return None;
    }
    let id: usize = ctx.next_scene_id;
    ctx.next_scene_id = bump(id);
    let scope: usize = ctx.next_scope_id;
    ctx.next_scope_id = bump(scope);
    if let Some(f) = check_scene_args(call) {
        ctx.fail(f);
        return None;
    }
    let name = read_string(find_named_value(call, "name"));
    let at = span_of(call);
    ctx.scene_call_ranges.push((id, at));
    if let Some(n) = &name {
        if is_scene_named(&ctx.scenes, n.as_str()) {
            ctx.warn(CandyWarn::DuplicateName("scene".to_owned(), n.clone(), at));
        }
    }
    let page_size = canvas_of(ctx);
    let start: u32 = ctx.cursor;
    let owns_labels: Vec<String> = Vec::new();
    assert(texts(owns_labels@) =~= Seq::<Seq<char>>::empty());
    ctx.scenes.push(
        SceneInfo { id, name, scope, page_size, start_ms: start, end_ms: start, owns_labels },
    );
    ctx.scene_stack.push(id);
    ctx.current_scene = id;
    Some(id)
}

/// The state with the open scene closed.
pub open spec fn scene_closed(c: CtxView, id: usize) -> CtxView {
    CtxView {
        scenes: ended(c.scenes, id, c.cursor),
        scene_stack: if c.scene_stack.len() > 0 {
            c.scene_stack.drop_last()
        } else {
            c.scene_stack
        },
        current_scene: 0,
        ..c
    }
}

fn close_scene(id: usize, ctx: &mut ParseCtx)
    ensures
        final(ctx)@ == scene_closed(old(ctx)@, id),
{
    let cursor: u32 = ctx.cursor;
    end_scene(&mut ctx.scenes, id, cursor);
    let _ = ctx.scene_stack.pop();
    ctx.current_scene = 0;
    assert(ctx@.scene_stack =~= scene_closed(old(ctx)@, id).scene_stack);
}

// ---------------------------------------------------------------- scopes

/// The state with a scope open.
pub open spec fn scope_opened(c: CtxView) -> CtxView {
    CtxView {
        next_scope_id: next_id(c.next_scope_id),
        scope_stack: c.scope_stack.push(c.next_scope_id),
        ..c
    }
}

/// The state with a scope closed again: candy symbols mean what they meant before it.
pub open spec fn scope_closed(
    c: CtxView,
    id: usize,
    start_ms: u32,
    symbols: Map<Seq<char>, Seq<char>>,
) -> CtxView {
    let n = c.scope_stack.len();
    CtxView {
        scope_stack: if n > 0 {
            c.scope_stack.drop_last()
        } else {
            c.scope_stack
        },
        symbol_map: symbols,
        scopes: c.scopes.push(
            ScopeInfo {
                id,
                parent: if n >= 2 {
                    Some(c.scope_stack[n - 2])
                } else if n == 1 {
                    Some(c.scope_stack[0])
                } else {
                    None
                },
                start_ms,
                end_ms: c.cursor,
            },
        ),
        ..c
    }
}

fn close_scope(
    id: usize,
    start_ms: u32,
    symbols: crate::table::Table<String>,
    ctx: &mut ParseCtx,
)
    ensures
        final(ctx)@ == scope_closed(old(ctx)@, id, start_ms, symbols@),
{
    let n: usize = ctx.scope_stack.len();
    let parent = if n >= 2 {
        Some(ctx.scope_stack[n - 2])
    } else if n == 1 {
        Some(ctx.scope_stack[0])
    } else {
        None
    };
    let _ = ctx.scope_stack.pop();
    assert(ctx.scope_stack@ =~= scope_closed(
        old(ctx)@,
        id,
        start_ms,
        symbols@,
    ).scope_stack);
    ctx.symbol_map = symbols;
    let end_ms: u32 = ctx.cursor;
    ctx.scopes.push(ScopeInfo { id, parent, start_ms, end_ms });
}

// ---------------------------------------------------------------- the walk

/// What a node says by itself, before its children are looked at.
pub open spec fn visited(c: CtxView, n: NodeView) -> CtxView {
    let c1 = show_ruled(page_sized(c, n), n);
    if n.kind == Kind::ModuleImport {
        import_walked(c1, n)
    } else if n.kind == Kind::FuncCall {
        called(c1, n)
    } else {
        c1
    }
}

fn visit(n: &Node, ctx: &mut ParseCtx)
    ensures
        final(ctx)@ == visited(old(ctx)@, n@),
{
    extract_page_size(n, ctx);
    detect_candy_show_rule(n, ctx);
    if n.kind == Kind::ModuleImport {
        walk_import(n, ctx);
    } else if n.kind == Kind::FuncCall {
        process_call(n, ctx);
    }
}

/// The state after a walk over a tree.
pub open spec fn walked(c: CtxView, n: NodeView) -> CtxView
    decreases n,
{
    let c1 = let_bound(c, n);
    if n.kind == Kind::FuncCall && symbol_of(c1, n) == Some("scene"@) {
        match scene_opened(c1, n) {
            Err(c2) => c2,
            Ok(c2) => scene_closed(walked_all(c2, n.children), c1.next_scene_id),
        }
    } else {
        let c2 = visited(c1, n);
        if n.kind == Kind::CodeBlock {
            scope_closed(
                walked_all(scope_opened(c2), n.children),
                c2.next_scope_id,
                c2.cursor,
                c2.symbol_map,
            )
        } else {
            walked_all(c2, n.children)
        }
    }
}

/// The state after a walk over a list of trees.
pub open spec fn walked_all(c: CtxView, s: Seq<NodeView>) -> CtxView
    decreases s,
{
    if s.len() == 0 {
        c
    } else {
        walked(walked_all(c, s.drop_last()), s.last())
    }
}

fn walk_children(n: &Node, ctx: &mut ParseCtx)
    ensures
        final(ctx)@ == walked_all(old(ctx)@, n@.children),
    decreases n@, 0nat,
{
    let ghost s = n@.children;
    let mut i: usize = 0;
    assert(s.take(0) =~= Seq::<NodeView>::empty());
    while i < n.children.len()
        invariant
            i <= n.children.len(),
            s == n@.children,
            s == nodes_view(n.children@),
            ctx@ == walked_all(old(ctx)@, s.take(i as int)),
        decreases n.children.len() - i,
    {
        proof {
            assert(s[i as int] == node_view(n.children@[i as int]));
            assert(decreases_to!(n@ => n@.children[i as int]));
            assert(s.take(i + 1).drop_last() =~= s.take(i as int));
        }
        walk(&n.children[i], ctx);
        i += 1;
    }
    assert(s.take(s.len() as int) =~= s);
}

/// Walks over the tree of a document.
///
/// A `let` hides candy symbols of the same name until the end of its block. A `scene` call opens
/// a scene around what it holds. A code block opens a scope.
pub fn walk(n: &Node, ctx: &mut ParseCtx)
    ensures
        final(ctx)@ == walked(old(ctx)@, n@),
    decreases n@, 1nat,
{
    process_let(n, ctx);
    if n.kind == Kind::FuncCall {
        if let Some(sym) = call_symbol(n, ctx) {
            if same(sym.as_str(), "scene") {
                if let Some(id) = open_scene(n, ctx) {
                    walk_children(n, ctx);
                    close_scene(id, ctx);
                }
                return;
            }
        }
    }
    visit(n, ctx);
    if n.kind == Kind::CodeBlock {
        let id: usize = ctx.next_scope_id;
        let start_ms: u32 = ctx.cursor;
        let symbols = ctx.symbol_map.duplicate();
        ctx.next_scope_id = bump(id);
        ctx.scope_stack.push(id);
        walk_children(n, ctx);
        close_scope(id, start_ms, symbols, ctx);
    } else {
        walk_children(n, ctx);
    }
}

} // verus!
