//! From the walk to the played scene: laws on order, switches, places and what a scene holds.

use vstd::prelude::*;
use crate::context::CtxView;
use crate::includes::{line_ends, line_number, located, region_for, ExpandedView, RegionView};
use crate::parse::{fresh, scene_parsed, VersionPolicy};
use crate::scene::{GlobalConfig, SceneInfoView, SlideView, Span};
use crate::switching::{active_at, after, id_of, resolved, scene_of, skipped_to, switch_of};
use crate::symbols::symbol_of;
use crate::syntax::{document, NodeView};
use crate::walk::{called, directive, refs_recorded, walked, walked_all};

verus! {

// ---------------------------------------------------------------- the walk

/// What stands first in a document acts first.
pub proof fn law_document_order(c: CtxView, a: Seq<NodeView>, b: Seq<NodeView>)
    ensures
        walked_all(c, a + b) == walked_all(walked_all(c, a), b),
    decreases b.len(),
{
    if b.len() == 0 {
        assert(a + b =~= a);
    } else {
        law_document_order(c, a, b.drop_last());
        assert((a + b).drop_last() =~= a + b.drop_last());
        assert((a + b).last() == b.last());
    }
}

/// A call of a directive does what the directive of that name does, with the call as its place; an
/// ordinary call does nothing.
pub proof fn law_call_acts(c: CtxView, call: NodeView)
    ensures
        symbol_of(c, call) is None ==> called(c, call) == c,
        symbol_of(c, call) matches Some(sym) ==> {
            let here = Span { start: call.start as usize, end: call.end as usize };
            let c1 = CtxView { current_directive_loc: Some(here), ..c };
            called(c, call) == directive(
                CtxView { name_ref_locs: refs_recorded(c1, call, sym).name_ref_locs, ..c1 },
                call,
                sym,
            )
        },
{
    reveal(called);
    if let Some(sym) = symbol_of(c, call) {
        let here = Span { start: call.start as usize, end: call.end as usize };
        let c1 = CtxView { current_directive_loc: Some(here), ..c };
        assert(refs_recorded(c1, call, sym) == (CtxView {
            name_ref_locs: refs_recorded(c1, call, sym).name_ref_locs,
            ..c1
        }));
    }
}

/// A scene holds what the walk over the document gathered, each thing under its own name, and the
/// canvas as its page.
pub proof fn law_scene_holds_the_walk(
    path: Seq<char>,
    x: ExpandedView,
    config: GlobalConfig,
    names: Seq<Seq<char>>,
    policy: VersionPolicy,
)
    ensures
        scene_parsed(path, x, config, names, policy) matches Ok(s) ==> {
            let c = walked(fresh(x.text, config), document(x.text));
            &&& c.pending_error is None
            &&& s.items == c.items && s.initial == c.initial && s.groups == c.groups
            &&& s.content_timeline == c.content_timeline
            &&& s.transform_plans == c.transform_plans && s.morph_pairs == c.morph_pairs
            &&& s.audio == c.audio && s.subtitles == c.subtitles && s.imports == c.imports
            &&& s.counters == c.counters && s.counter_events == c.counter_events
            &&& s.kcdefs == c.kcdefs && s.kc_events == c.kc_events
            &&& s.page_size == Some((c.config.width, c.config.height))
            &&& s.config == c.config
            &&& s.label_locs == c.label_locs && s.name_ref_locs == c.name_ref_locs
            &&& s.mobject_body == c.mobject_body_ranges && s.scene_call == c.scene_call_ranges
            &&& s.subtitle_call == c.subtitle_call_ranges
            &&& s.warnings == c.warnings
            &&& s.file_path == path && s.source == x
        },
        walked(fresh(x.text, config), document(x.text)).pending_error is Some ==> scene_parsed(
            path,
            x,
            config,
            names,
            policy,
        ) is Err,
{
}

// ---------------------------------------------------------------- switches

proof fn lemma_id_of(s: Seq<SceneInfoView>, name: Seq<char>, i: int)
    requires
        0 <= i < s.len(),
        s[i].name == Some(name),
        forall|j: int| 0 <= j < i ==> (#[trigger] s[j]).name != Some(name),
    ensures
        id_of(s, name) == Some(s[i].id),
    decreases s.len(),
{
    let t = s.drop_last();
    if i < s.len() - 1 {
        assert forall|j: int| 0 <= j < i implies (#[trigger] t[j]).name != Some(name) by {
            assert(t[j] == s[j]);
        }
        lemma_id_of(t, name, i);
    } else {
        assert forall|j: int| 0 <= j < t.len() implies (#[trigger] t[j]).name != Some(name) by {
            assert(t[j] == s[j]);
        }
        lemma_no_id(t, name);
    }
}

proof fn lemma_no_id(s: Seq<SceneInfoView>, name: Seq<char>)
    requires
        forall|j: int| 0 <= j < s.len() ==> (#[trigger] s[j]).name != Some(name),
    ensures
        id_of(s, name) is None,
    decreases s.len(),
{
    if s.len() > 0 {
        assert(s[s.len() - 1].name != Some(name));
        assert forall|j: int| 0 <= j < s.drop_last().len() implies (
        #[trigger] s.drop_last()[j]).name != Some(name) by {
            assert(s.drop_last()[j] == s[j]);
        }
        lemma_no_id(s.drop_last(), name);
    }
}

/// A switch goes to the first scene of the name that it gives.
pub proof fn law_switch_target(s: Seq<SceneInfoView>, name: Seq<char>, i: int)
    requires
        0 <= i < s.len(),
        s[i].name == Some(name),
        forall|j: int| 0 <= j < i ==> (#[trigger] s[j]).name != Some(name),
    ensures
        resolved(s, name) == Some(s[i].id),
{
    lemma_id_of(s, name, i);
}

/// Behind a slide without a switch the next slide is played; behind a switch to a scene that is
/// still to come, the next slide is the first one of that scene, and it starts when the scene does.
pub proof fn law_what_is_played_next(
    slides: Seq<SlideView>,
    scenes: Seq<SceneInfoView>,
    i: int,
    now: u32,
    id: usize,
    k: int,
)
    requires
        0 <= i < slides.len(),
    ensures
        switch_of(slides[i].actions) is None ==> after(slides, scenes, i, now) == Ok::<
            (int, u32),
            Seq<char>,
        >((i + 1, now.wrapping_add(slides[i].duration_ms))),
        switch_of(slides[i].actions) matches Some(t) ==> {
            &&& resolved(scenes, t) is None ==> after(slides, scenes, i, now) == Err::<
                (int, u32),
                Seq<char>,
            >(t)
            &&& resolved(scenes, t) == Some(id) && 0 <= k < scenes.len() && scenes[k].id == id && (
            forall|j: int| 0 <= j < k ==> (#[trigger] scenes[j]).id != id) && scenes[k].start_ms
                > now ==> {
                &&& after(slides, scenes, i, now) is Ok
                &&& after(slides, scenes, i, now)->Ok_0.1 == scenes[k].start_ms
                &&& ({
                    let next = after(slides, scenes, i, now)->Ok_0.0;
                    &&& i < next <= slides.len()
                    &&& next < slides.len() ==> scene_of(slides, scenes, next) == id
                    &&& forall|j: int|
                        i < j < next ==> #[trigger] scene_of(slides, scenes, j) != id
                })
            }
        },
{
    if let Some(t) = switch_of(slides[i].actions) {
        if resolved(scenes, t) == Some(id) && 0 <= k < scenes.len() && scenes[k].id == id && (
        forall|j: int| 0 <= j < k ==> (#[trigger] scenes[j]).id != id) {
            crate::stage::lemma_scene_found(scenes, id, k);
            lemma_first_of_scene(slides, scenes, i + 1, id);
        }
    }
}

proof fn lemma_first_of_scene(
    slides: Seq<SlideView>,
    scenes: Seq<SceneInfoView>,
    i: int,
    id: usize,
)
    requires
        i <= slides.len(),
    ensures
        ({
            let next = skipped_to(slides, scenes, i, id);
            &&& i <= next <= slides.len()
            &&& next < slides.len() ==> scene_of(slides, scenes, next) == id
            &&& forall|j: int| i <= j < next ==> #[trigger] scene_of(slides, scenes, j) != id
        }),
    decreases slides.len() - i,
{
    if i < slides.len() && scene_of(slides, scenes, i) != id {
        lemma_first_of_scene(slides, scenes, i + 1, id);
    }
}

/// The scene at a time is the last one in whose interval the time lies, and the scene of the whole
/// document where there is none.
pub proof fn law_scene_at(s: Seq<SceneInfoView>, t: u32, i: int)
    ensures
        0 <= i < s.len() && s[i].start_ms <= t <= s[i].end_ms && (forall|j: int|
            i < j < s.len() ==> !((#[trigger] s[j]).start_ms <= t <= s[j].end_ms)) ==> active_at(
            s,
            t,
        ) == s[i].id,
        (forall|j: int|
            0 <= j < s.len() ==> !((#[trigger] s[j]).start_ms <= t <= s[j].end_ms)) ==> active_at(
            s,
            t,
        ) == 0,
    decreases s.len(),
{
    if s.len() > 0 {
        let r = s.drop_last();
        law_scene_at(r, t, i);
        assert(s[s.len() - 1] == s.last());
        assert(forall|j: int| 0 <= j < r.len() ==> #[trigger] r[j] == s[j]);
    }
}

// ---------------------------------------------------------------- places

/// A place is in line 1 and one more for every line feed in front of it.
pub proof fn law_line_number(b: Seq<u8>, c: u8)
    ensures
        line_ends(Seq::<u8>::empty()) == 0,
        line_ends(b.push(c)) == line_ends(b) + if c == 10 {
            1nat
        } else {
            0
        },
{
    assert(b.push(c).drop_last() =~= b);
}

proof fn lemma_region(s: Seq<RegionView>, at: int, i: int)
    requires
        0 <= i < s.len(),
        s[i].start <= at < s[i].end,
        forall|j: int| i < j < s.len() ==> !((#[trigger] s[j]).start <= at < s[j].end),
    ensures
        region_for(s, at) == Some(s[i]),
    decreases s.len(),
{
    if i < s.len() - 1 {
        assert(!(s[s.len() - 1].start <= at < s[s.len() - 1].end));
        lemma_region(s.drop_last(), at, i);
    }
}

proof fn lemma_no_region(s: Seq<RegionView>, at: int)
    requires
        forall|j: int| 0 <= j < s.len() ==> !((#[trigger] s[j]).start <= at < s[j].end),
    ensures
        region_for(s, at) is None,
    decreases s.len(),
{
    if s.len() > 0 {
        assert(!(s[s.len() - 1].start <= at < s[s.len() - 1].end));
        lemma_no_region(s.drop_last(), at);
    }
}

/// A fault is told of in the file that its text came from, counted from the start of that file,
/// with the places where the file was pulled in; outside of all files that were pulled in, it is
/// told of in the document itself.
pub proof fn law_fault_in_its_file(path: Seq<char>, x: ExpandedView, at: Span, i: int)
    ensures
        0 <= i < x.regions.len() && x.regions[i].start <= at.start < x.regions[i].end && (
        forall|j: int|
            i < j < x.regions.len() ==> !((#[trigger] x.regions[j]).start <= at.start
                < x.regions[j].end)) ==> {
            let l = located(path, x, at);
            &&& l.path == x.regions[i].path
            &&& l.span.start == (at.start - x.regions[i].start) as usize
            &&& l.include_trace == x.regions[i].trace
            &&& l.line == line_number(x.regions[i].text, l.span.start as int)
        },
        (forall|j: int|
            0 <= j < x.regions.len() ==> !((#[trigger] x.regions[j]).start <= at.start
                < x.regions[j].end)) ==> {
            let l = located(path, x, at);
            &&& l.path == path
            &&& l.span == at
            &&& l.include_trace.len() == 0
            &&& l.line == line_number(x.text, at.start as int)
        },
{
    if 0 <= i < x.regions.len() && x.regions[i].start <= at.start < x.regions[i].end && (forall|
        j: int,
    |
        i < j < x.regions.len() ==> !((#[trigger] x.regions[j]).start <= at.start
            < x.regions[j].end)) {
        lemma_region(x.regions, at.start as int, i);
    }
    if forall|j: int|
        0 <= j < x.regions.len() ==> !((#[trigger] x.regions[j]).start <= at.start
            < x.regions[j].end) {
        lemma_no_region(x.regions, at.start as int);
    }
}

} // verus!
